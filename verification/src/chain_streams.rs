//! What the chain sounds like over any number of blocks.

use vstd::prelude::*;

use crate::chain::{
    a_settled_bypass_is_the_delayed_input, all_finite, contained, counted, limited_block,
    saturated, stages_play, total_latency, without_bypass_the_stages_are_heard, Chain,
};
use crate::chain_stage::ChainStage;
use crate::delay_line::{delay_does_not_depend_on_the_division, delayed, reachable};
use crate::math::SampleMath;
use crate::sample::Sample;
use crate::stage_io::{block_of, joined, silent_block, stream_of};
use crate::telemetry::newest;

verus! {

/// Whether the chain may turn the stream `blocks` into `outputs` and be left as `after`.
pub open spec fn chain_processes_all<A: SampleMath>(
    chain: Chain<A>,
    blocks: Seq<Seq<Seq<Sample>>>,
    outputs: Seq<Seq<Seq<Sample>>>,
    after: Chain<A>,
) -> bool
    decreases blocks.len(),
{
    &&& outputs.len() == blocks.len()
    &&& if blocks.len() == 0 {
        after == chain
    } else {
        exists|between: Chain<A>|
            {
                &&& chain_processes_all(chain, blocks.drop_last(), outputs.drop_last(), between)
                &&& #[trigger] between.processes(
                    blocks.last(),
                    blocks.last()[0].len(),
                    outputs.last(),
                    after,
                )
            }
    }
}

/// Whether the chain's bypass is on and settled, with one line per channel, none of them empty, and
/// nothing but finite numbers in them.
pub open spec fn rests_bypassed<A: SampleMath>(chain: Chain<A>, channels: nat) -> bool {
    &&& chain.global_bypass
    &&& chain.cross_cutting matches Some(cc) && {
        &&& cc.started ==> cc.blend.mix == Sample::one()
        &&& cc.delay_lines@.len() == channels
        &&& forall|c: int| 0 <= c < channels ==> (#[trigger] cc.delay_lines@[c])@.len() >= 1
        &&& forall|c: int, i: int|
            0 <= c < channels && 0 <= i < cc.delay_lines@[c]@.len() ==> (
            #[trigger] cc.delay_lines@[c]@[i]).finite()
    }
}

/// With the bypass on and settled, a finite stream leaves the chain as it came in, late by the
/// delay the chain reports, however it is divided into blocks: on every channel, frame `n` is the
/// frame that many before it, of the stream or of what the line held before. The chain stays as it
/// was, no fault is counted, and only the lines change: they hold the newest of it all.
pub proof fn a_settled_bypass_delays_the_stream<A: SampleMath>(
    chain: Chain<A>,
    blocks: Seq<Seq<Seq<Sample>>>,
    outputs: Seq<Seq<Seq<Sample>>>,
    after: Chain<A>,
    channels: nat,
)
    requires
        rests_bypassed(chain, channels),
        channels >= 1,
        stream_of(blocks, channels),
        forall|k: int| 0 <= k < blocks.len() ==> all_finite(#[trigger] blocks[k]),
        chain_processes_all(chain, blocks, outputs, after),
    ensures
        rests_bypassed(after, channels),
        after.stages@ == chain.stages@,
        after.fault_count == chain.fault_count,
        forall|c: int|
            0 <= c < channels ==> (#[trigger] after.cross_cutting->0.delay_lines@[c])@ == newest(
                chain.cross_cutting->0.delay_lines@[c]@ + joined(blocks, c),
                chain.cross_cutting->0.delay_lines@[c]@.len(),
            ),
        forall|c: int|
            0 <= c < channels ==> (#[trigger] joined(outputs, c)).len() == joined(blocks, c).len(),
        forall|c: int, n: int|
            0 <= c < channels && 0 <= n < joined(blocks, c).len() ==> #[trigger] joined(
                outputs,
                c,
            )[n] == delayed(
                chain.cross_cutting->0.delay_lines@[c]@,
                joined(blocks, c),
                reachable(
                    saturated(total_latency(chain.stages@)) as nat,
                    chain.cross_cutting->0.delay_lines@[c]@.len(),
                ),
                n,
            ),
    decreases blocks.len(),
{
    let first = chain.cross_cutting->0.delay_lines@;
    if blocks.len() == 0 {
        assert forall|c: int| 0 <= c < channels implies (#[trigger] first[c])@ == newest(
            first[c]@ + joined(blocks, c),
            first[c]@.len(),
        ) by {
            assert(first[c]@ + joined(blocks, c) =~= first[c]@);
        }
    } else {
        let past = blocks.drop_last();
        let input = blocks.last();
        let output = outputs.last();
        let frames = input[0].len();
        let latency = saturated(total_latency(chain.stages@)) as nat;
        let between = choose|between: Chain<A>|
            {
                &&& chain_processes_all(chain, past, outputs.drop_last(), between)
                &&& #[trigger] between.processes(input, frames, output, after)
            };
        assert forall|k: int| 0 <= k < past.len() implies all_finite(#[trigger] past[k]) by {
            assert(past[k] == blocks[k]);
        }
        a_settled_bypass_delays_the_stream(chain, past, outputs.drop_last(), between, channels);
        a_settled_bypass_is_the_delayed_input(between, input, frames, output, after);
        assert(blocks[blocks.len() - 1] == input);
        assert(all_finite(input));
        assert(block_of(input, frames));
        let held = between.cross_cutting->0;
        let lines = held.delay_lines@;
        let left = after.cross_cutting->0.delay_lines@;
        let dry = choose|dry: Seq<Seq<Sample>>|
            {
                &&& #[trigger] held.delays(input, latency, dry)
                &&& output == if all_finite(dry) {
                    dry
                } else {
                    silent_block(dry.len(), frames)
                }
                &&& after.fault_count == counted(between.fault_count, !all_finite(dry))
            };
        assert forall|c: int, i: int| 0 <= c < dry.len() && 0 <= i < dry[c].len() implies (
        #[trigger] dry[c][i]).finite() by {
            assert(lines[c]@.len() >= 1);
            let at = lines[c]@.len() + i - reachable(latency, lines[c]@.len());
            if at < lines[c]@.len() {
                assert(lines[c]@[at].finite());
            } else {
                assert(input[c][at - lines[c]@.len()].finite());
            }
        }
        assert forall|c: int| 0 <= c < channels implies (#[trigger] left[c])@ == newest(
            first[c]@ + joined(blocks, c),
            first[c]@.len(),
        ) && left[c]@.len() >= 1 by {
            assert(lines[c]@.len() >= 1);
            delay_does_not_depend_on_the_division(first[c]@, joined(past, c), input[c], 0);
        }
        assert forall|c: int, i: int| 0 <= c < channels && 0 <= i < left[c]@.len() implies (
        #[trigger] left[c]@[i]).finite() by {
            let all = lines[c]@ + input[c];
            assert(lines[c]@.len() >= 1);
            let at = all.len() - lines[c]@.len() + i;
            assert(left[c]@[i] == all[at]);
            if at < lines[c]@.len() {
                assert(lines[c]@[at].finite());
            } else {
                assert(input[c][at - lines[c]@.len()].finite());
            }
        }
        assert forall|c: int| 0 <= c < channels implies (#[trigger] joined(outputs, c)).len()
            == joined(blocks, c).len() by {
            assert(joined(outputs.drop_last(), c).len() == joined(past, c).len());
            assert(dry[c].len() == input[c].len());
        }
        assert forall|c: int, n: int|
            0 <= c < channels && 0 <= n < joined(blocks, c).len() implies #[trigger] joined(
            outputs,
            c,
        )[n] == delayed(
            first[c]@,
            joined(blocks, c),
            reachable(latency, first[c]@.len()),
            n,
        ) by {
            let delay = reachable(latency, first[c]@.len());
            let earlier = joined(past, c);
            assert(lines[c]@.len() >= 1);
            assert(first[c]@.len() >= 1);
            delay_does_not_depend_on_the_division(first[c]@, earlier, input[c], delay);
            assert(joined(outputs.drop_last(), c).len() == earlier.len());
            if n < earlier.len() {
                assert(joined(outputs.drop_last(), c)[n] == delayed(first[c]@, earlier, delay, n));
            } else {
                let i = n - earlier.len();
                assert(dry[c][i] == delayed(lines[c]@, input[c], delay, i));
            }
        }
    }
}

/// What turns everything up to a frame, on all channels, into that frame of one channel.
pub type StreamRule = spec_fn(Seq<Seq<Sample>>, int) -> Sample;

/// The first `n` frames of every channel.
pub open spec fn up_to(streams: Seq<Seq<Sample>>, n: int) -> Seq<Seq<Sample>> {
    Seq::new(streams.len(), |c: int| streams[c].take(n))
}

/// All channels of a stream.
pub open spec fn all_joined(blocks: Seq<Seq<Seq<Sample>>>, channels: nat) -> Seq<Seq<Sample>> {
    Seq::new(channels, |c: int| joined(blocks, c))
}

/// What a rule makes of whole channels.
pub open spec fn ruled(rule: StreamRule, streams: Seq<Seq<Sample>>) -> Seq<Seq<Sample>> {
    Seq::new(
        streams.len(),
        |c: int| Seq::new(streams[c].len(), |n: int| rule(up_to(streams, n + 1), c)),
    )
}

/// What rules, one after the other, make of whole channels.
pub open spec fn ruled_by_all(
    rules: Seq<StreamRule>,
    streams: Seq<Seq<Sample>>,
) -> Seq<Seq<Sample>>
    decreases rules.len(),
{
    if rules.len() == 0 {
        streams
    } else {
        ruled(rules.last(), ruled_by_all(rules.drop_last(), streams))
    }
}

/// Whether a stage of the chain may turn the stream `blocks` into `outputs` and be left as `after`.
pub open spec fn stage_plays_all<A: SampleMath>(
    stage: ChainStage<A>,
    blocks: Seq<Seq<Seq<Sample>>>,
    outputs: Seq<Seq<Seq<Sample>>>,
    after: ChainStage<A>,
) -> bool
    decreases blocks.len(),
{
    &&& outputs.len() == blocks.len()
    &&& if blocks.len() == 0 {
        after == stage
    } else {
        exists|between: ChainStage<A>|
            {
                &&& stage_plays_all(stage, blocks.drop_last(), outputs.drop_last(), between)
                &&& #[trigger] between.plays(blocks.last(), outputs.last(), after)
            }
    }
}

/// Whether a stage goes by a rule: each frame it gives out is what the rule makes of everything
/// that has come in up to that frame, however it was divided into blocks.
pub open spec fn stage_goes_by<A: SampleMath>(
    stage: ChainStage<A>,
    rule: StreamRule,
    channels: nat,
) -> bool {
    forall|
        blocks: Seq<Seq<Seq<Sample>>>,
        outputs: Seq<Seq<Seq<Sample>>>,
        after: ChainStage<A>,
    |
        stream_of(blocks, channels) && stream_of(outputs, channels) && #[trigger] stage_plays_all(
            stage,
            blocks,
            outputs,
            after,
        ) ==> all_joined(outputs, channels) == ruled(rule, all_joined(blocks, channels))
}

/// Whether less than `limit` frames of a stream come before its last block.
pub open spec fn within(blocks: Seq<Seq<Seq<Sample>>>, limit: int) -> bool {
    blocks.len() > 0 ==> joined(blocks.drop_last(), 0).len() < limit
}

/// Whether a stage goes by a rule up to the block in which `limit` frames have come in.
pub open spec fn stage_goes_by_within<A: SampleMath>(
    stage: ChainStage<A>,
    rule: StreamRule,
    channels: nat,
    limit: int,
) -> bool {
    forall|
        blocks: Seq<Seq<Seq<Sample>>>,
        outputs: Seq<Seq<Seq<Sample>>>,
        after: ChainStage<A>,
    |
        stream_of(blocks, channels) && stream_of(outputs, channels) && within(blocks, limit)
            && #[trigger] stage_plays_all(stage, blocks, outputs, after) ==> all_joined(
            outputs,
            channels,
        ) == ruled(rule, all_joined(blocks, channels))
}

/// Whether a row of stages may turn the stream `blocks` into `outputs` and be left as `after`.
pub open spec fn stages_play_all<A: SampleMath>(
    stages: Seq<ChainStage<A>>,
    blocks: Seq<Seq<Seq<Sample>>>,
    outputs: Seq<Seq<Seq<Sample>>>,
    after: Seq<ChainStage<A>>,
) -> bool
    decreases blocks.len(),
{
    &&& outputs.len() == blocks.len()
    &&& if blocks.len() == 0 {
        after == stages
    } else {
        exists|between: Seq<ChainStage<A>>|
            {
                &&& stages_play_all(stages, blocks.drop_last(), outputs.drop_last(), between)
                &&& #[trigger] stages_play(between, after, blocks.last(), outputs.last())
            }
    }
}

/// A row of stages plays a stream as its last stage plays what the others made of it.
pub proof fn a_row_plays_stage_by_stage<A: SampleMath>(
    stages: Seq<ChainStage<A>>,
    blocks: Seq<Seq<Seq<Sample>>>,
    outputs: Seq<Seq<Seq<Sample>>>,
    after: Seq<ChainStage<A>>,
) -> (between: Seq<Seq<Seq<Sample>>>)
    requires
        stages.len() > 0,
        stages_play_all(stages, blocks, outputs, after),
    ensures
        after.len() == stages.len(),
        stages_play_all(stages.drop_last(), blocks, between, after.drop_last()),
        stage_plays_all(stages.last(), between, outputs, after.last()),
    decreases blocks.len(),
{
    if blocks.len() == 0 {
        Seq::empty()
    } else {
        let middle = choose|middle: Seq<ChainStage<A>>|
            {
                &&& stages_play_all(stages, blocks.drop_last(), outputs.drop_last(), middle)
                &&& #[trigger] stages_play(middle, after, blocks.last(), outputs.last())
            };
        let past = a_row_plays_stage_by_stage(
            stages,
            blocks.drop_last(),
            outputs.drop_last(),
            middle,
        );
        let block = choose|block: Seq<Seq<Sample>>|
            stages_play(middle.drop_last(), after.drop_last(), blocks.last(), block)
                && #[trigger] middle.last().plays(block, outputs.last(), after.last());
        let between = past.push(block);
        assert(between.drop_last() =~= past);
        assert(stages_play(middle.drop_last(), after.drop_last(), blocks.last(), between.last()));
        assert(stages_play_all(stages.drop_last(), blocks, between, after.drop_last()));
        assert(middle.last().plays(between.last(), outputs.last(), after.last()));
        assert(stage_plays_all(stages.last(), between, outputs, after.last()));
        between
    }
}

/// A stage gives out blocks of the shape of those that came in.
pub proof fn a_stage_keeps_the_shape_of_a_stream<A: SampleMath>(
    stage: ChainStage<A>,
    blocks: Seq<Seq<Seq<Sample>>>,
    outputs: Seq<Seq<Seq<Sample>>>,
    after: ChainStage<A>,
    channels: nat,
)
    requires
        channels >= 1,
        stream_of(blocks, channels),
        stage_plays_all(stage, blocks, outputs, after),
    ensures
        stream_of(outputs, channels),
        forall|k: int|
            0 <= k < blocks.len() ==> (#[trigger] outputs[k])[0].len() == blocks[k][0].len(),
        forall|c: int|
            0 <= c < channels ==> (#[trigger] joined(outputs, c)).len() == joined(blocks, c).len(),
    decreases blocks.len(),
{
    if blocks.len() > 0 {
        let past = blocks.drop_last();
        let earlier = outputs.drop_last();
        let between = choose|between: ChainStage<A>|
            {
                &&& stage_plays_all(stage, past, earlier, between)
                &&& #[trigger] between.plays(blocks.last(), outputs.last(), after)
            };
        a_stage_keeps_the_shape_of_a_stream(stage, past, earlier, between, channels);
        let last = blocks.len() - 1;
        assert(block_of(blocks[last], blocks[last][0].len()));
        assert forall|k: int| 0 <= k < outputs.len() implies (#[trigger] outputs[k]).len()
            == channels && block_of(outputs[k], outputs[k][0].len()) && outputs[k][0].len()
            == blocks[k][0].len() by {
            if k < last {
                assert(earlier[k] == outputs[k]);
                assert(past[k] == blocks[k]);
            } else {
                assert(outputs[k][0].len() == blocks[k][0].len());
            }
        }
        assert forall|c: int| 0 <= c < channels implies (#[trigger] joined(outputs, c)).len()
            == joined(blocks, c).len() by {
            assert(joined(earlier, c).len() == joined(past, c).len());
            assert(outputs.last()[c].len() == blocks.last()[c].len());
        }
    }
}

/// Stages that each go by a rule go, in a row, by the rules one after the other.
pub proof fn a_row_goes_by_its_rules<A: SampleMath>(
    stages: Seq<ChainStage<A>>,
    rules: Seq<StreamRule>,
    blocks: Seq<Seq<Seq<Sample>>>,
    outputs: Seq<Seq<Seq<Sample>>>,
    after: Seq<ChainStage<A>>,
    channels: nat,
    limit: int,
)
    requires
        channels >= 1,
        rules.len() == stages.len(),
        forall|k: int|
            0 <= k < stages.len() ==> stage_goes_by_within(
                #[trigger] stages[k],
                rules[k],
                channels,
                limit,
            ),
        stream_of(blocks, channels),
        within(blocks, limit),
        stages_play_all(stages, blocks, outputs, after),
    ensures
        outputs.len() == blocks.len(),
        stream_of(outputs, channels),
        all_joined(outputs, channels) == ruled_by_all(rules, all_joined(blocks, channels)),
        forall|k: int|
            0 <= k < blocks.len() ==> (#[trigger] outputs[k])[0].len() == blocks[k][0].len(),
    decreases stages.len(),
{
    if stages.len() == 0 {
        lemma_no_stages(stages, blocks, outputs, after);
    } else {
        let between = a_row_plays_stage_by_stage(stages, blocks, outputs, after);
        assert forall|k: int| 0 <= k < stages.len() - 1 implies stage_goes_by_within(
            #[trigger] stages.drop_last()[k],
            rules.drop_last()[k],
            channels,
            limit,
        ) by {
            assert(stages.drop_last()[k] == stages[k]);
        }
        a_row_goes_by_its_rules(
            stages.drop_last(),
            rules.drop_last(),
            blocks,
            between,
            after.drop_last(),
            channels,
            limit,
        );
        lemma_same_frames(blocks, between);
        a_stage_keeps_the_shape_of_a_stream(
            stages.last(),
            between,
            outputs,
            after.last(),
            channels,
        );
        assert(stage_goes_by_within(
            stages[stages.len() - 1],
            rules[stages.len() - 1],
            channels,
            limit,
        ));
        assert forall|k: int| 0 <= k < blocks.len() implies (#[trigger] outputs[k])[0].len()
            == blocks[k][0].len() by {
            assert(between[k][0].len() == blocks[k][0].len());
        }
    }
}

/// Blocks of the same lengths make streams of the same lengths.
proof fn lemma_same_frames(a: Seq<Seq<Seq<Sample>>>, b: Seq<Seq<Seq<Sample>>>)
    requires
        a.len() == b.len(),
        forall|k: int| 0 <= k < a.len() ==> (#[trigger] b[k])[0].len() == a[k][0].len(),
    ensures
        joined(a, 0).len() == joined(b, 0).len(),
        a.len() > 0 ==> joined(a.drop_last(), 0).len() == joined(b.drop_last(), 0).len(),
    decreases a.len(),
{
    if a.len() > 0 {
        assert forall|k: int| 0 <= k < a.len() - 1 implies (#[trigger] b.drop_last()[k])[0].len()
            == a.drop_last()[k][0].len() by {
            assert(b[k][0].len() == a[k][0].len());
        }
        lemma_same_frames(a.drop_last(), b.drop_last());
        assert(b[a.len() - 1][0].len() == a[a.len() - 1][0].len());
    }
}

/// A row of no stages passes a stream on.
proof fn lemma_no_stages<A: SampleMath>(
    stages: Seq<ChainStage<A>>,
    blocks: Seq<Seq<Seq<Sample>>>,
    outputs: Seq<Seq<Seq<Sample>>>,
    after: Seq<ChainStage<A>>,
)
    requires
        stages.len() == 0,
        stages_play_all(stages, blocks, outputs, after),
    ensures
        outputs == blocks,
        after.len() == 0,
    decreases blocks.len(),
{
    if blocks.len() == 0 {
        assert(outputs =~= blocks);
    } else {
        let middle = choose|middle: Seq<ChainStage<A>>|
            {
                &&& stages_play_all(stages, blocks.drop_last(), outputs.drop_last(), middle)
                &&& #[trigger] stages_play(middle, after, blocks.last(), outputs.last())
            };
        lemma_no_stages(stages, blocks.drop_last(), outputs.drop_last(), middle);
        assert(outputs =~= outputs.drop_last().push(outputs.last()));
        assert(blocks =~= blocks.drop_last().push(blocks.last()));
    }
}

/// Whether the chain's bypass is off and settled.
pub open spec fn rests_unbypassed<A: SampleMath>(chain: Chain<A>) -> bool {
    &&& !chain.global_bypass
    &&& chain.cross_cutting matches Some(cc) && (cc.started ==> cc.blend.mix == Sample::zero())
}

/// With the bypass off and settled, the chain gives out what its stages make of the stream, block
/// by block contained.
pub proof fn an_unbypassed_chain_plays_its_stages<A: SampleMath>(
    chain: Chain<A>,
    blocks: Seq<Seq<Seq<Sample>>>,
    outputs: Seq<Seq<Seq<Sample>>>,
    after: Chain<A>,
) -> (wet: Seq<Seq<Seq<Sample>>>)
    requires
        rests_unbypassed(chain),
        chain_processes_all(chain, blocks, outputs, after),
    ensures
        rests_unbypassed(after),
        after.output_ceiling_linear == chain.output_ceiling_linear,
        stages_play_all(chain.stages@, blocks, wet, after.stages@),
        forall|k: int|
            0 <= k < blocks.len() ==> #[trigger] outputs[k] == contained(
                wet[k],
                blocks[k][0].len(),
                chain.output_ceiling_linear,
                true,
            ),
        (forall|k: int| 0 <= k < blocks.len() ==> all_finite(#[trigger] wet[k]))
            ==> after.fault_count == chain.fault_count,
    decreases blocks.len(),
{
    if blocks.len() == 0 {
        Seq::empty()
    } else {
        let past = blocks.drop_last();
        let between = choose|between: Chain<A>|
            {
                &&& chain_processes_all(chain, past, outputs.drop_last(), between)
                &&& #[trigger] between.processes(
                    blocks.last(),
                    blocks.last()[0].len(),
                    outputs.last(),
                    after,
                )
            };
        let earlier = an_unbypassed_chain_plays_its_stages(
            chain,
            past,
            outputs.drop_last(),
            between,
        );
        without_bypass_the_stages_are_heard(
            between,
            blocks.last(),
            blocks.last()[0].len(),
            outputs.last(),
            after,
        );
        let last = choose|wet: Seq<Seq<Sample>>|
            {
                &&& #[trigger] stages_play(between.stages@, after.stages@, blocks.last(), wet)
                &&& outputs.last() == contained(
                    wet,
                    blocks.last()[0].len(),
                    chain.output_ceiling_linear,
                    true,
                )
                &&& after.fault_count == counted(between.fault_count, !all_finite(wet))
            };
        let wet = earlier.push(last);
        assert(wet.drop_last() =~= earlier);
        assert(stages_play(between.stages@, after.stages@, blocks.last(), wet.last()));
        assert(stages_play_all(chain.stages@, blocks, wet, after.stages@));
        assert forall|k: int| 0 <= k < blocks.len() implies #[trigger] outputs[k] == contained(
            wet[k],
            blocks[k][0].len(),
            chain.output_ceiling_linear,
            true,
        ) by {
            if k < past.len() {
                assert(outputs.drop_last()[k] == outputs[k]);
                assert(past[k] == blocks[k]);
            }
        }
        if forall|k: int| 0 <= k < blocks.len() ==> all_finite(#[trigger] wet[k]) {
            assert(all_finite(wet[blocks.len() - 1]));
            assert forall|k: int| 0 <= k < past.len() implies all_finite(#[trigger] earlier[k]) by {
                assert(earlier[k] == wet[k]);
            }
        }
        wet
    }
}

/// If whole channels are finite, so is every block.
proof fn lemma_finite_blocks(blocks: Seq<Seq<Seq<Sample>>>, channels: nat, k: int)
    requires
        stream_of(blocks, channels),
        all_finite(all_joined(blocks, channels)),
        0 <= k < blocks.len(),
    ensures
        all_finite(blocks[k]),
    decreases blocks.len(),
{
    let whole = all_joined(blocks, channels);
    let past = all_joined(blocks.drop_last(), channels);
    if k == blocks.len() - 1 {
        assert forall|c: int, i: int|
            0 <= c < blocks[k].len() && 0 <= i < blocks[k][c].len() implies (
        #[trigger] blocks[k][c][i]).finite() by {
            assert(whole[c][past[c].len() + i] == blocks[k][c][i]);
        }
    } else {
        assert forall|c: int, i: int| 0 <= c < past.len() && 0 <= i < past[c].len() implies (
        #[trigger] past[c][i]).finite() by {
            assert(whole[c][i] == past[c][i]);
        }
        lemma_finite_blocks(blocks.drop_last(), channels, k);
    }
}

/// Clamping block by block is clamping the whole.
proof fn lemma_limited_stream(
    wet: Seq<Seq<Seq<Sample>>>,
    outputs: Seq<Seq<Seq<Sample>>>,
    ceiling: Sample,
    c: int,
    channels: nat,
)
    requires
        outputs.len() == wet.len(),
        0 <= c < channels,
        stream_of(wet, channels),
        forall|k: int|
            0 <= k < wet.len() ==> #[trigger] outputs[k] == limited_block(wet[k], ceiling),
    ensures
        joined(outputs, c) == Seq::new(
            joined(wet, c).len(),
            |n: int| joined(wet, c)[n].limited(ceiling),
        ),
    decreases wet.len(),
{
    if wet.len() > 0 {
        let last = wet.len() - 1;
        assert(outputs[last] == limited_block(wet[last], ceiling));
        assert(wet[last].len() == channels);
        lemma_limited_stream(wet.drop_last(), outputs.drop_last(), ceiling, c, channels);
    }
    assert(joined(outputs, c) =~= Seq::new(
        joined(wet, c).len(),
        |n: int| joined(wet, c)[n].limited(ceiling),
    ));
}

/// With the bypass off and settled, a chain whose stages each go by a rule up to the block in which
/// `limit` frames have come in turns a stream of no more than that into what the rules, one after
/// the other, make of it, clamped to the ceiling, as long as that is finite. No fault is counted.
pub proof fn a_chain_goes_by_its_rules<A: SampleMath>(
    chain: Chain<A>,
    rules: Seq<StreamRule>,
    blocks: Seq<Seq<Seq<Sample>>>,
    outputs: Seq<Seq<Seq<Sample>>>,
    after: Chain<A>,
    channels: nat,
    limit: int,
)
    requires
        rests_unbypassed(chain),
        channels >= 1,
        rules.len() == chain.stages@.len(),
        forall|k: int|
            0 <= k < chain.stages@.len() ==> stage_goes_by_within(
                #[trigger] chain.stages@[k],
                rules[k],
                channels,
                limit,
            ),
        stream_of(blocks, channels),
        within(blocks, limit),
        chain_processes_all(chain, blocks, outputs, after),
        all_finite(ruled_by_all(rules, all_joined(blocks, channels))),
    ensures
        all_joined(outputs, channels) == limited_block(
            ruled_by_all(rules, all_joined(blocks, channels)),
            chain.output_ceiling_linear,
        ),
        after.fault_count == chain.fault_count,
{
    let wet = an_unbypassed_chain_plays_its_stages(chain, blocks, outputs, after);
    a_row_goes_by_its_rules(chain.stages@, rules, blocks, wet, after.stages@, channels, limit);
    let ceiling = chain.output_ceiling_linear;
    assert forall|k: int| 0 <= k < wet.len() implies all_finite(#[trigger] wet[k]) by {
        lemma_finite_blocks(wet, channels, k);
    }
    assert forall|k: int| 0 <= k < wet.len() implies #[trigger] outputs[k] == limited_block(
        wet[k],
        ceiling,
    ) by {
        assert(all_finite(wet[k]));
    }
    let whole = ruled_by_all(rules, all_joined(blocks, channels));
    assert forall|c: int| 0 <= c < channels implies #[trigger] all_joined(outputs, channels)[c]
        == limited_block(whole, ceiling)[c] by {
        lemma_limited_stream(wet, outputs, ceiling, c, channels);
        assert(whole[c] == joined(wet, c));
    }
    assert(whole.len() == channels);
    assert(all_joined(outputs, channels) =~= limited_block(whole, ceiling));
}

/// With the bypass off and settled, a chain whose stages each go by a rule turns a stream into what
/// the rules, one after the other, make of it, clamped to the ceiling, however the stream is
/// divided into blocks, as long as that is finite. No fault is counted.
pub proof fn a_settled_chain_does_not_hear_the_division<A: SampleMath>(
    chain: Chain<A>,
    rules: Seq<StreamRule>,
    blocks: Seq<Seq<Seq<Sample>>>,
    outputs: Seq<Seq<Seq<Sample>>>,
    after: Chain<A>,
    channels: nat,
)
    requires
        rests_unbypassed(chain),
        channels >= 1,
        rules.len() == chain.stages@.len(),
        forall|k: int|
            0 <= k < chain.stages@.len() ==> stage_goes_by(
                #[trigger] chain.stages@[k],
                rules[k],
                channels,
            ),
        stream_of(blocks, channels),
        chain_processes_all(chain, blocks, outputs, after),
        all_finite(ruled_by_all(rules, all_joined(blocks, channels))),
    ensures
        all_joined(outputs, channels) == limited_block(
            ruled_by_all(rules, all_joined(blocks, channels)),
            chain.output_ceiling_linear,
        ),
        after.fault_count == chain.fault_count,
{
    let limit = joined(blocks, 0).len() as int + 1;
    assert forall|k: int| 0 <= k < chain.stages@.len() implies stage_goes_by_within(
        #[trigger] chain.stages@[k],
        rules[k],
        channels,
        limit,
    ) by {
        assert(stage_goes_by(chain.stages@[k], rules[k], channels));
    }
    a_chain_goes_by_its_rules(chain, rules, blocks, outputs, after, channels, limit);
}

/// Two runs of a chain whose stages each go by a rule give out the same, however the stream is
/// divided into blocks in either of them.
pub proof fn two_divisions_sound_the_same<A: SampleMath>(
    chain: Chain<A>,
    rules: Seq<StreamRule>,
    blocks: (Seq<Seq<Seq<Sample>>>, Seq<Seq<Seq<Sample>>>),
    outputs: (Seq<Seq<Seq<Sample>>>, Seq<Seq<Seq<Sample>>>),
    after: (Chain<A>, Chain<A>),
    channels: nat,
    limit: int,
)
    requires
        rests_unbypassed(chain),
        channels >= 1,
        rules.len() == chain.stages@.len(),
        forall|k: int|
            0 <= k < chain.stages@.len() ==> stage_goes_by_within(
                #[trigger] chain.stages@[k],
                rules[k],
                channels,
                limit,
            ),
        stream_of(blocks.0, channels),
        stream_of(blocks.1, channels),
        within(blocks.0, limit),
        within(blocks.1, limit),
        all_joined(blocks.0, channels) == all_joined(blocks.1, channels),
        all_finite(ruled_by_all(rules, all_joined(blocks.0, channels))),
        chain_processes_all(chain, blocks.0, outputs.0, after.0),
        chain_processes_all(chain, blocks.1, outputs.1, after.1),
    ensures
        all_joined(outputs.0, channels) == all_joined(outputs.1, channels),
{
    a_chain_goes_by_its_rules(chain, rules, blocks.0, outputs.0, after.0, channels, limit);
    a_chain_goes_by_its_rules(chain, rules, blocks.1, outputs.1, after.1, channels, limit);
}

/// What rules make of the beginning of a stream is the beginning of what they make of it: with one
/// of them replaced, nothing changes up to frame `m` if that one's replacement makes the same up to
/// there of what the rules before it make.
pub proof fn a_replaced_rule_is_heard_from_where_it_differs(
    rules: Seq<StreamRule>,
    others: Seq<StreamRule>,
    streams: Seq<Seq<Sample>>,
    k: int,
    frames: nat,
    m: int,
)
    requires
        rules.len() == others.len(),
        0 <= k < rules.len(),
        forall|i: int| 0 <= i < rules.len() && i != k ==> #[trigger] rules[i] == others[i],
        block_of(streams, frames),
        0 <= m <= frames,
        up_to(ruled(rules[k], ruled_by_all(rules.take(k), streams)), m) == up_to(
            ruled(others[k], ruled_by_all(rules.take(k), streams)),
            m,
        ),
    ensures
        up_to(ruled_by_all(rules, streams), m) == up_to(ruled_by_all(others, streams), m),
        ruled_by_all(rules, streams).len() == streams.len(),
        block_of(ruled_by_all(rules, streams), frames),
        ruled_by_all(others, streams).len() == streams.len(),
        block_of(ruled_by_all(others, streams), frames),
    decreases rules.len(),
{
    let last = rules.len() - 1;
    lemma_ruled_shape(rules.drop_last(), streams, frames);
    lemma_ruled_shape(others.drop_last(), streams, frames);
    if k == last {
        assert(rules.take(k) =~= rules.drop_last());
        assert(others.drop_last() =~= rules.drop_last());
    } else {
        assert(rules.drop_last().take(k) =~= rules.take(k));
        a_replaced_rule_is_heard_from_where_it_differs(
            rules.drop_last(),
            others.drop_last(),
            streams,
            k,
            frames,
            m,
        );
        let a = ruled_by_all(rules.drop_last(), streams);
        let b = ruled_by_all(others.drop_last(), streams);
        let rule = rules[last];
        assert(others[last] == rule);
        assert forall|c: int| 0 <= c < streams.len() implies #[trigger] up_to(
            ruled(rule, a),
            m,
        )[c] == up_to(ruled(rule, b), m)[c] by {
            let x = ruled(rule, a)[c].take(m);
            let y = ruled(rule, b)[c].take(m);
            assert(a[c].len() == frames && b[c].len() == frames);
            assert forall|n: int| 0 <= n < m implies x[n] == y[n] by {
                assert forall|d: int| 0 <= d < streams.len() implies #[trigger] up_to(
                    a,
                    n + 1,
                )[d] == up_to(b, n + 1)[d] by {
                    assert(up_to(a, m)[d] == up_to(b, m)[d]);
                    assert(a[d].len() == frames && b[d].len() == frames);
                    assert(a[d].take(n + 1) =~= up_to(a, m)[d].take(n + 1));
                    assert(b[d].take(n + 1) =~= up_to(b, m)[d].take(n + 1));
                }
                assert(up_to(a, n + 1) =~= up_to(b, n + 1));
            }
            assert(x =~= y);
        }
        assert(up_to(ruled(rule, a), m) =~= up_to(ruled(rule, b), m));
    }
}

/// Rules keep the shape of what they are applied to.
pub proof fn lemma_ruled_shape(
    rules: Seq<StreamRule>,
    streams: Seq<Seq<Sample>>,
    frames: nat,
)
    requires
        block_of(streams, frames),
    ensures
        ruled_by_all(rules, streams).len() == streams.len(),
        block_of(ruled_by_all(rules, streams), frames),
    decreases rules.len(),
{
    if rules.len() > 0 {
        lemma_ruled_shape(rules.drop_last(), streams, frames);
    }
}

/// Whether no amp stage among these has a handover under way.
pub open spec fn no_model_fades<A: SampleMath>(stages: Seq<ChainStage<A>>) -> bool {
    forall|k: int|
        0 <= k < stages.len() ==> ((#[trigger] stages[k]) matches ChainStage::Nam(stage)
            ==> stage.handover.fade is None)
}

/// Whether two rows of stages are equally late, stage by stage, but for mere processors, of which
/// this says nothing.
pub open spec fn equally_late<A: SampleMath>(
    a: Seq<ChainStage<A>>,
    b: Seq<ChainStage<A>>,
) -> bool {
    &&& a.len() == b.len()
    &&& forall|k: int|
        #![trigger a[k]]
        #![trigger b[k]]
        0 <= k < a.len() ==> {
            &&& (a[k] is Plain <==> b[k] is Plain)
            &&& a[k] !is Plain ==> a[k].latency() == b[k].latency()
        }
}

/// A block leaves every stage without a handover under way as late as it was.
proof fn lemma_block_keeps_lateness<A: SampleMath>(
    before: Seq<ChainStage<A>>,
    after: Seq<ChainStage<A>>,
    input: Seq<Seq<Sample>>,
    output: Seq<Seq<Sample>>,
)
    requires
        stages_play(before, after, input, output),
        no_model_fades(before),
    ensures
        equally_late(before, after),
        no_model_fades(after),
    decreases before.len(),
{
    if before.len() > 0 {
        let between = choose|between: Seq<Seq<Sample>>|
            stages_play(before.drop_last(), after.drop_last(), input, between)
                && #[trigger] before.last().plays(between, output, after.last());
        assert forall|k: int| 0 <= k < before.len() - 1 implies ((
        #[trigger] before.drop_last()[k]) matches ChainStage::Nam(stage)
            ==> stage.handover.fade is None) by {
            assert(before.drop_last()[k] == before[k]);
        }
        lemma_block_keeps_lateness(before.drop_last(), after.drop_last(), input, between);
        let last = before.len() - 1;
        assert(before[last] == before.last() && after[last] == after.last());
        assert forall|k: int| 0 <= k < before.len() implies {
            &&& (before[k] is Plain <==> after[k] is Plain)
            &&& before[k] !is Plain ==> before[k].latency() == after[k].latency()
            &&& ((#[trigger] after[k]) matches ChainStage::Nam(stage)
                ==> stage.handover.fade is None)
        } by {
            if k < last {
                assert(before.drop_last()[k] == before[k]);
                assert(after.drop_last()[k] == after[k]);
            }
        }
    }
}

/// A stream leaves every stage without a handover under way as late as it was.
proof fn lemma_stream_keeps_lateness<A: SampleMath>(
    stages: Seq<ChainStage<A>>,
    blocks: Seq<Seq<Seq<Sample>>>,
    outputs: Seq<Seq<Seq<Sample>>>,
    after: Seq<ChainStage<A>>,
)
    requires
        stages_play_all(stages, blocks, outputs, after),
        no_model_fades(stages),
    ensures
        equally_late(stages, after),
        no_model_fades(after),
    decreases blocks.len(),
{
    if blocks.len() > 0 {
        let between = choose|between: Seq<ChainStage<A>>|
            {
                &&& stages_play_all(stages, blocks.drop_last(), outputs.drop_last(), between)
                &&& #[trigger] stages_play(between, after, blocks.last(), outputs.last())
            };
        lemma_stream_keeps_lateness(stages, blocks.drop_last(), outputs.drop_last(), between);
        lemma_block_keeps_lateness(between, after, blocks.last(), outputs.last());
        assert forall|k: int| 0 <= k < stages.len() implies {
            &&& ((#[trigger] stages[k]) is Plain <==> after[k] is Plain)
            &&& stages[k] !is Plain ==> stages[k].latency() == after[k].latency()
        } by {
            assert(between[k] is Plain <==> after[k] is Plain);
        }
    }
}

/// Rows that are equally late stage by stage, mere processors included, are equally late.
pub proof fn equally_late_stages_add_up_to_the_same<A: SampleMath>(
    a: Seq<ChainStage<A>>,
    b: Seq<ChainStage<A>>,
)
    requires
        equally_late(a, b),
        forall|k: int| 0 <= k < a.len() && a[k] is Plain ==> (#[trigger] a[k]).latency()
            == b[k].latency(),
    ensures
        total_latency(a) == total_latency(b),
    decreases a.len(),
{
    if a.len() > 0 {
        assert forall|k: int| 0 <= k < a.len() - 1 implies {
            &&& #[trigger] a.drop_last()[k] == a[k]
            &&& b.drop_last()[k] == b[k]
        } by {}
        assert(a[a.len() - 1] == a.last() && b[b.len() - 1] == b.last());
        equally_late_stages_add_up_to_the_same(a.drop_last(), b.drop_last());
    }
}

/// While no model is being handed over, a chain that is not bypassed stays as late as it was, as
/// far as that is for its own stages to say: only a mere processor may change its delay.
pub proof fn a_chain_without_a_handover_stays_as_late<A: SampleMath>(
    chain: Chain<A>,
    blocks: Seq<Seq<Seq<Sample>>>,
    outputs: Seq<Seq<Seq<Sample>>>,
    after: Chain<A>,
)
    requires
        rests_unbypassed(chain),
        no_model_fades(chain.stages@),
        chain_processes_all(chain, blocks, outputs, after),
    ensures
        equally_late(chain.stages@, after.stages@),
        (forall|k: int| 0 <= k < chain.stages@.len() && chain.stages@[k] is Plain
            ==> (#[trigger] chain.stages@[k]).latency() == after.stages@[k].latency())
            ==> total_latency(after.stages@) == total_latency(chain.stages@),
{
    let wet = an_unbypassed_chain_plays_its_stages(chain, blocks, outputs, after);
    lemma_stream_keeps_lateness(chain.stages@, blocks, wet, after.stages@);
    if forall|k: int| 0 <= k < chain.stages@.len() && chain.stages@[k] is Plain
        ==> (#[trigger] chain.stages@[k]).latency() == after.stages@[k].latency() {
        equally_late_stages_add_up_to_the_same(chain.stages@, after.stages@);
    }
}

} // verus!
