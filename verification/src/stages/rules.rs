//! The rules the product's stages go by, if their processors go by rules.
//!
//! Together with [`crate::chain_streams`] they say what a settled chain makes of a stream. A stage
//! is settled while no handover is under way in it; the output stage, while it is not on its way to
//! silence.

use vstd::prelude::*;

use crate::chain_stage::ChainStage;
use crate::chain_streams::{
    all_joined, ruled, stage_goes_by, stage_plays_all, up_to, StreamRule,
};
use crate::math::{blend_value, position_after, single_valued, SampleMath};
use crate::sample::Sample;
use crate::stage::{descends, one_block_more_descends, runs, BoxedStage};
use crate::stage_io::{block_of, channels_keep_pace, joined, stream_of};
use crate::stages::bypass::a_blend_has_one_result;
use crate::stages::eq::EqStage;
use crate::stages::gate::GateStage;
use crate::stages::out::OutStage;
use crate::stages::seamless::{
    a_rule_does_not_hear_the_division, bands_go_by, equaliser_plays_all, gate_plays_all, goes_by,
    runs_all, streamed, streamed_by_all, the_equaliser_does_not_hear_the_division,
    the_noise_gate_does_not_hear_the_division,
};

verus! {

/// What has gone through `state`, on all channels, since it was `core`.
pub open spec fn all_gone_through(
    core: BoxedStage,
    state: BoxedStage,
    channels: nat,
) -> Seq<Seq<Sample>> {
    all_joined(state.0.played().skip(core.0.played().len() as int), channels)
}

/// What has gone through and the first `n` frames of a block behind it.
pub open spec fn continued(
    past: Seq<Seq<Sample>>,
    block: Seq<Seq<Sample>>,
    n: int,
) -> Seq<Seq<Sample>> {
    Seq::new(past.len(), |c: int| past[c] + block[c].take(n))
}

/// Whether a processor of several channels that is told nothing more goes by `rule`.
pub open spec fn all_go_by(core: BoxedStage, rule: StreamRule, channels: nat) -> bool {
    forall|
        state: BoxedStage,
        input: Seq<Seq<Sample>>,
        output: Seq<Seq<Sample>>,
        after: BoxedStage,
    |
        {
            &&& descends(core, state)
            &&& input.len() == channels
            &&& block_of(input, input[0].len())
            &&& #[trigger] state.passes(input, output, after)
        } ==> forall|c: int, i: int|
            0 <= c < channels && 0 <= i < output[c].len() ==> #[trigger] output[c][i] == rule(
                continued(all_gone_through(core, state, channels), input, i + 1),
                c,
            )
}

/// Whether a processor of several channels may turn the stream `blocks` into `outputs` and be left
/// as `after`.
pub open spec fn passes_all(
    core: BoxedStage,
    blocks: Seq<Seq<Seq<Sample>>>,
    outputs: Seq<Seq<Seq<Sample>>>,
    after: BoxedStage,
) -> bool
    decreases blocks.len(),
{
    &&& outputs.len() == blocks.len()
    &&& if blocks.len() == 0 {
        after == core
    } else {
        exists|between: BoxedStage|
            {
                &&& passes_all(core, blocks.drop_last(), outputs.drop_last(), between)
                &&& #[trigger] between.passes(blocks.last(), outputs.last(), after)
            }
    }
}

/// A processor of several channels that goes by a rule turns a stream into what the rule makes of
/// it, however it is divided into blocks.
pub proof fn a_rule_of_all_channels_does_not_hear_the_division(
    core: BoxedStage,
    rule: StreamRule,
    blocks: Seq<Seq<Seq<Sample>>>,
    outputs: Seq<Seq<Seq<Sample>>>,
    after: BoxedStage,
    channels: nat,
)
    requires
        channels >= 1,
        stream_of(blocks, channels),
        all_go_by(core, rule, channels),
        passes_all(core, blocks, outputs, after),
    ensures
        descends(core, after),
        all_gone_through(core, after, channels) == all_joined(blocks, channels),
        all_joined(outputs, channels) == ruled(rule, all_joined(blocks, channels)),
    decreases blocks.len(),
{
    let start = core.0.played().len() as int;
    let whole = all_joined(blocks, channels);
    let target = ruled(rule, whole);
    if blocks.len() == 0 {
        one_block_more_descends(core, core, seq![], seq![], core);
        assert(core.0.played().skip(start) =~= Seq::<Seq<Seq<Sample>>>::empty());
        assert(all_gone_through(core, after, channels) =~= whole);
        assert forall|c: int| 0 <= c < channels implies #[trigger] all_joined(
            outputs,
            channels,
        )[c] == target[c] by {
            assert(all_joined(outputs, channels)[c] =~= target[c]);
        }
        assert(all_joined(outputs, channels) =~= target);
    } else {
        let past = blocks.drop_last();
        let earlier = outputs.drop_last();
        let input = blocks.last();
        let output = outputs.last();
        let between = choose|between: BoxedStage|
            {
                &&& passes_all(core, past, earlier, between)
                &&& #[trigger] between.passes(input, output, after)
            };
        a_rule_of_all_channels_does_not_hear_the_division(
            core,
            rule,
            past,
            earlier,
            between,
            channels,
        );
        assert(blocks[blocks.len() - 1] == input);
        assert(block_of(input, input[0].len()));
        one_block_more_descends(core, between, input, output, after);
        let before = between.0.played().skip(start);
        let later = after.0.played().skip(start);
        assert(later =~= before.push(input));
        assert(later.drop_last() =~= before);
        let behind = all_joined(past, channels);
        assert forall|c: int| 0 <= c < channels implies #[trigger] all_gone_through(
            core,
            after,
            channels,
        )[c] == whole[c] by {
            assert(all_gone_through(core, between, channels)[c] == behind[c]);
        }
        assert(all_gone_through(core, after, channels) =~= whole);
        assert forall|c: int| 0 <= c < channels implies #[trigger] all_joined(
            outputs,
            channels,
        )[c] == target[c] by {
            let made = joined(outputs, c);
            assert(all_joined(earlier, channels)[c] == ruled(rule, behind)[c]);
            assert(output[c].len() == input[c].len());
            assert forall|n: int| 0 <= n < whole[c].len() implies #[trigger] made[n]
                == rule(up_to(whole, n + 1), c) by {
                channels_keep_pace(past, channels, c);
                if n < behind[c].len() {
                    assert(made[n] == ruled(rule, behind)[c][n]);
                    assert forall|d: int| 0 <= d < channels implies #[trigger] up_to(
                        whole,
                        n + 1,
                    )[d] == up_to(behind, n + 1)[d] by {
                        channels_keep_pace(past, channels, d);
                        assert(whole[d].take(n + 1) =~= behind[d].take(n + 1));
                    }
                    assert(up_to(whole, n + 1) =~= up_to(behind, n + 1));
                } else {
                    let i = n - behind[c].len();
                    assert(output[c][i] == rule(
                        continued(all_gone_through(core, between, channels), input, i + 1),
                        c,
                    ));
                    assert forall|d: int| 0 <= d < channels implies #[trigger] up_to(
                        whole,
                        n + 1,
                    )[d] == continued(behind, input, i + 1)[d] by {
                        channels_keep_pace(past, channels, d);
                        assert(whole[d].take(n + 1) =~= behind[d] + input[d].take(i + 1));
                    }
                    assert(up_to(whole, n + 1) =~= continued(behind, input, i + 1));
                }
            }
            assert(made =~= target[c]);
        }
        assert(all_joined(outputs, channels) =~= target);
    }
}

/// A mere processor goes by its own rule.
pub proof fn a_plain_stage_goes_by_its_rule<A: SampleMath>(
    core: BoxedStage,
    rule: StreamRule,
    channels: nat,
)
    requires
        channels >= 1,
        all_go_by(core, rule, channels),
    ensures
        stage_goes_by(ChainStage::<A>::Plain(core), rule, channels),
{
    let stage = ChainStage::<A>::Plain(core);
    assert forall|
        blocks: Seq<Seq<Seq<Sample>>>,
        outputs: Seq<Seq<Seq<Sample>>>,
        after: ChainStage<A>,
    |
        stream_of(blocks, channels) && stream_of(outputs, channels) && #[trigger] stage_plays_all(
            stage,
            blocks,
            outputs,
            after,
        ) implies all_joined(outputs, channels) == ruled(rule, all_joined(blocks, channels)) by {
        let left = lemma_plain(core, blocks, outputs, after);
        a_rule_of_all_channels_does_not_hear_the_division(
            core,
            rule,
            blocks,
            outputs,
            left,
            channels,
        );
    }
}

/// A mere processor in a chain plays a stream as it would on its own.
proof fn lemma_plain<A: SampleMath>(
    core: BoxedStage,
    blocks: Seq<Seq<Seq<Sample>>>,
    outputs: Seq<Seq<Seq<Sample>>>,
    after: ChainStage<A>,
) -> (left: BoxedStage)
    requires
        stage_plays_all(ChainStage::<A>::Plain(core), blocks, outputs, after),
    ensures
        after == ChainStage::<A>::Plain(left),
        passes_all(core, blocks, outputs, left),
    decreases blocks.len(),
{
    if blocks.len() == 0 {
        core
    } else {
        let between = choose|between: ChainStage<A>|
            {
                &&& stage_plays_all(
                    ChainStage::<A>::Plain(core),
                    blocks.drop_last(),
                    outputs.drop_last(),
                    between,
                )
                &&& #[trigger] between.plays(blocks.last(), outputs.last(), after)
            };
        let middle = lemma_plain(core, blocks.drop_last(), outputs.drop_last(), between);
        let left = after->Plain_0;
        assert(middle.passes(blocks.last(), outputs.last(), left));
        left
    }
}

/// The rule of a noise gate whose detector goes by `rule`.
pub open spec fn gate_rule<A: SampleMath>(
    stage: GateStage<A>,
    rule: spec_fn(Seq<Sample>) -> Sample,
) -> StreamRule {
    |streams: Seq<Seq<Sample>>, c: int|
        blend_value(
            stage.math,
            streams[c].last(),
            rule(streams[0]),
            position_after(
                stage.math,
                stage.blend.mix,
                stage.blend.target,
                stage.blend.coefficient,
                streams[c].len(),
            ),
        )
}

/// A noise gate whose detector goes by a rule goes by one itself.
pub proof fn a_noise_gate_goes_by_its_rule<A: SampleMath>(
    stage: Box<GateStage<A>>,
    rule: spec_fn(Seq<Sample>) -> Sample,
    channels: nat,
)
    requires
        channels >= 1,
        single_valued(stage.math),
        goes_by(stage.detector, rule),
    ensures
        stage_goes_by(ChainStage::Gate(stage), gate_rule(*stage, rule), channels),
{
    let whole = ChainStage::Gate(stage);
    let own = gate_rule(*stage, rule);
    assert forall|
        blocks: Seq<Seq<Seq<Sample>>>,
        outputs: Seq<Seq<Seq<Sample>>>,
        after: ChainStage<A>,
    |
        stream_of(blocks, channels) && stream_of(outputs, channels) && #[trigger] stage_plays_all(
            whole,
            blocks,
            outputs,
            after,
        ) implies all_joined(outputs, channels) == ruled(own, all_joined(blocks, channels)) by {
        let left = lemma_gate(stage, blocks, outputs, after);
        let streams = all_joined(blocks, channels);
        assert forall|c: int| 0 <= c < channels implies #[trigger] all_joined(
            outputs,
            channels,
        )[c] == ruled(own, streams)[c] by {
            the_noise_gate_does_not_hear_the_division(
                *stage,
                rule,
                blocks,
                outputs,
                channels,
                c,
                *left,
            );
            a_blend_has_one_result(
                stage.math,
                stage.blend.mix,
                stage.blend.target,
                stage.blend.coefficient,
                joined(blocks, c),
                streamed(rule, joined(blocks, 0)),
                joined(outputs, c),
                left.blend.mix,
            );
            channels_keep_pace(blocks, channels, c);
            assert forall|n: int| 0 <= n < joined(outputs, c).len() implies #[trigger] joined(
                outputs,
                c,
            )[n] == own(up_to(streams, n + 1), c) by {
                assert(up_to(streams, n + 1)[c] == joined(blocks, c).take(n + 1));
                assert(up_to(streams, n + 1)[0] == joined(blocks, 0).take(n + 1));
            }
            assert(joined(outputs, c) =~= ruled(own, streams)[c]);
        }
        assert(all_joined(outputs, channels) =~= ruled(own, streams));
    }
}

/// A noise gate in a chain plays a stream as it would on its own.
proof fn lemma_gate<A: SampleMath>(
    stage: Box<GateStage<A>>,
    blocks: Seq<Seq<Seq<Sample>>>,
    outputs: Seq<Seq<Seq<Sample>>>,
    after: ChainStage<A>,
) -> (left: Box<GateStage<A>>)
    requires
        stage_plays_all(ChainStage::Gate(stage), blocks, outputs, after),
    ensures
        after == ChainStage::Gate(left),
        gate_plays_all(*stage, blocks, outputs, *left),
    decreases blocks.len(),
{
    if blocks.len() == 0 {
        stage
    } else {
        let between = choose|between: ChainStage<A>|
            {
                &&& stage_plays_all(
                    ChainStage::Gate(stage),
                    blocks.drop_last(),
                    outputs.drop_last(),
                    between,
                )
                &&& #[trigger] between.plays(blocks.last(), outputs.last(), after)
            };
        let middle = lemma_gate(stage, blocks.drop_last(), outputs.drop_last(), between);
        let left = after->Gate_0;
        assert(middle.plays(blocks.last(), outputs.last(), *left));
        left
    }
}

/// What rules, one after the other, make of the beginning of a stream is the beginning of what they
/// make of it.
pub proof fn rules_look_back_only(
    rules: Seq<spec_fn(Seq<Sample>) -> Sample>,
    stream: Seq<Sample>,
    n: int,
)
    requires
        0 <= n <= stream.len(),
    ensures
        streamed_by_all(rules, stream).len() == stream.len(),
        streamed_by_all(rules, stream.take(n)) == streamed_by_all(rules, stream).take(n),
    decreases rules.len(),
{
    if rules.len() > 0 {
        rules_look_back_only(rules.drop_last(), stream, n);
        let before = streamed_by_all(rules.drop_last(), stream);
        let short = streamed(rules.last(), before.take(n));
        let long = streamed(rules.last(), before).take(n);
        assert forall|i: int| 0 <= i < n implies #[trigger] short[i] == long[i] by {
            assert(before.take(n).take(i + 1) =~= before.take(i + 1));
        }
        assert(short =~= long);
    }
}

/// The rule of an equaliser whose filters go by `rules`, channel by channel.
pub open spec fn equaliser_rule(rules: Seq<Seq<spec_fn(Seq<Sample>) -> Sample>>) -> StreamRule {
    |streams: Seq<Seq<Sample>>, c: int| streamed_by_all(rules[c], streams[c]).last()
}

/// An equaliser whose filters each go by a rule goes by one itself.
pub proof fn an_equaliser_goes_by_its_rule<A: SampleMath>(
    stage: Box<EqStage>,
    rules: Seq<Seq<spec_fn(Seq<Sample>) -> Sample>>,
    channels: nat,
)
    requires
        1 <= channels <= 2,
        bands_go_by(stage.first, rules[0]),
        channels > 1 ==> bands_go_by(stage.second, rules[1]),
    ensures
        stage_goes_by(ChainStage::<A>::Eq(stage), equaliser_rule(rules), channels),
{
    let whole = ChainStage::<A>::Eq(stage);
    let own = equaliser_rule(rules);
    assert forall|
        blocks: Seq<Seq<Seq<Sample>>>,
        outputs: Seq<Seq<Seq<Sample>>>,
        after: ChainStage<A>,
    |
        stream_of(blocks, channels) && stream_of(outputs, channels) && #[trigger] stage_plays_all(
            whole,
            blocks,
            outputs,
            after,
        ) implies all_joined(outputs, channels) == ruled(own, all_joined(blocks, channels)) by {
        let left = lemma_equaliser(stage, blocks, outputs, after);
        let streams = all_joined(blocks, channels);
        assert forall|c: int| 0 <= c < channels implies #[trigger] all_joined(
            outputs,
            channels,
        )[c] == ruled(own, streams)[c] by {
            the_equaliser_does_not_hear_the_division(
                *stage,
                rules[c],
                blocks,
                outputs,
                channels,
                c,
                *left,
            );
            let stream = joined(blocks, c);
            rules_look_back_only(rules[c], stream, 0);
            assert forall|n: int| 0 <= n < stream.len() implies #[trigger] joined(outputs, c)[n]
                == own(up_to(streams, n + 1), c) by {
                rules_look_back_only(rules[c], stream, n + 1);
                assert(up_to(streams, n + 1)[c] == stream.take(n + 1));
            }
            assert(joined(outputs, c) =~= ruled(own, streams)[c]);
        }
        assert(all_joined(outputs, channels) =~= ruled(own, streams));
    }
}

/// An equaliser in a chain plays a stream as it would on its own.
proof fn lemma_equaliser<A: SampleMath>(
    stage: Box<EqStage>,
    blocks: Seq<Seq<Seq<Sample>>>,
    outputs: Seq<Seq<Seq<Sample>>>,
    after: ChainStage<A>,
) -> (left: Box<EqStage>)
    requires
        stage_plays_all(ChainStage::<A>::Eq(stage), blocks, outputs, after),
    ensures
        after == ChainStage::<A>::Eq(left),
        equaliser_plays_all(*stage, blocks, outputs, *left),
    decreases blocks.len(),
{
    if blocks.len() == 0 {
        stage
    } else {
        let between = choose|between: ChainStage<A>|
            {
                &&& stage_plays_all(
                    ChainStage::<A>::Eq(stage),
                    blocks.drop_last(),
                    outputs.drop_last(),
                    between,
                )
                &&& #[trigger] between.plays(blocks.last(), outputs.last(), after)
            };
        let middle = lemma_equaliser(stage, blocks.drop_last(), outputs.drop_last(), between);
        let left = after->Eq_0;
        assert(middle.plays(blocks.last(), outputs.last(), *left));
        left
    }
}

/// The rule of an output stage whose gains go by `rules`, channel by channel, while it is not on
/// its way to silence.
pub open spec fn output_rule(rules: Seq<spec_fn(Seq<Sample>) -> Sample>) -> StreamRule {
    |streams: Seq<Seq<Sample>>, c: int| rules[c](streams[c])
}

/// An output stage that is not on its way to silence, and whose gains each go by a rule, goes by
/// one itself. Its meters are not heard.
pub proof fn an_output_stage_goes_by_its_rule<A: SampleMath>(
    stage: Box<OutStage>,
    rules: Seq<spec_fn(Seq<Sample>) -> Sample>,
    channels: nat,
)
    requires
        1 <= channels <= 2,
        !stage.headed_for_silence(),
        goes_by(stage.first.gain, rules[0]),
        channels > 1 ==> goes_by(stage.second.gain, rules[1]),
    ensures
        stage_goes_by(ChainStage::<A>::Out(stage), output_rule(rules), channels),
{
    let whole = ChainStage::<A>::Out(stage);
    let own = output_rule(rules);
    assert forall|
        blocks: Seq<Seq<Seq<Sample>>>,
        outputs: Seq<Seq<Seq<Sample>>>,
        after: ChainStage<A>,
    |
        stream_of(blocks, channels) && stream_of(outputs, channels) && #[trigger] stage_plays_all(
            whole,
            blocks,
            outputs,
            after,
        ) implies all_joined(outputs, channels) == ruled(own, all_joined(blocks, channels)) by {
        let streams = all_joined(blocks, channels);
        assert forall|c: int| 0 <= c < channels implies #[trigger] all_joined(
            outputs,
            channels,
        )[c] == ruled(own, streams)[c] by {
            let left = lemma_output(stage, blocks, outputs, after, channels, c);
            let (before, later) = if c == 0 {
                (stage.first.gain, left.first.gain)
            } else {
                (stage.second.gain, left.second.gain)
            };
            a_rule_does_not_hear_the_division(before, rules[c], blocks, c, outputs, c, later);
            let stream = joined(blocks, c);
            assert forall|n: int| 0 <= n < stream.len() implies #[trigger] joined(outputs, c)[n]
                == own(up_to(streams, n + 1), c) by {
                assert(up_to(streams, n + 1)[c] == stream.take(n + 1));
            }
            assert(joined(outputs, c) =~= ruled(own, streams)[c]);
        }
        assert(all_joined(outputs, channels) =~= ruled(own, streams));
    }
}

/// Over a stream, each channel of an output stage that is not on its way to silence passes its own
/// gain.
proof fn lemma_output<A: SampleMath>(
    stage: Box<OutStage>,
    blocks: Seq<Seq<Seq<Sample>>>,
    outputs: Seq<Seq<Seq<Sample>>>,
    after: ChainStage<A>,
    channels: nat,
    c: int,
) -> (left: Box<OutStage>)
    requires
        1 <= channels <= 2,
        0 <= c < channels,
        !stage.headed_for_silence(),
        stream_of(blocks, channels),
        stage_plays_all(ChainStage::<A>::Out(stage), blocks, outputs, after),
    ensures
        after == ChainStage::<A>::Out(left),
        !left.headed_for_silence(),
        c == 0 ==> runs_all(stage.first.gain, blocks, c, outputs, c, left.first.gain),
        c == 1 ==> runs_all(stage.second.gain, blocks, c, outputs, c, left.second.gain),
    decreases blocks.len(),
{
    if blocks.len() == 0 {
        stage
    } else {
        let between = choose|between: ChainStage<A>|
            {
                &&& stage_plays_all(
                    ChainStage::<A>::Out(stage),
                    blocks.drop_last(),
                    outputs.drop_last(),
                    between,
                )
                &&& #[trigger] between.plays(blocks.last(), outputs.last(), after)
            };
        let middle = lemma_output(
            stage,
            blocks.drop_last(),
            outputs.drop_last(),
            between,
            channels,
            c,
        );
        let left = after->Out_0;
        assert(middle.plays(blocks.last(), outputs.last(), *left));
        assert(blocks[blocks.len() - 1].len() == channels);
        if c == 0 {
            assert(runs(
                middle.first.gain,
                blocks.last()[c],
                outputs.last()[c],
                left.first.gain,
            ));
        } else {
            assert(runs(
                middle.second.gain,
                blocks.last()[c],
                outputs.last()[c],
                left.second.gain,
            ));
        }
        left
    }
}

} // verus!
