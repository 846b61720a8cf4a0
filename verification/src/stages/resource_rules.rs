//! The rules the cabinet and the amp stage go by while no handover is under way, if their
//! processors go by rules.

use vstd::arithmetic::div_mod::{lemma_fundamental_div_mod, lemma_fundamental_div_mod_converse};
use vstd::prelude::*;

use crate::chain_stage::ChainStage;
use crate::chain_streams::{
    all_joined, ruled, stage_goes_by, stage_plays_all, up_to, StreamRule,
};
use crate::math::{blend_value, position_after, single_valued, smooth_path, summed, SampleMath};
use crate::param::ParamChange;
use crate::sample::Sample;
use crate::stage::{descends, one_block_more_descends, runs, BoxedStage, Event};
use crate::stage_io::{block_of, channels_keep_pace, joined, stream_of};
use crate::stages::bypass::{
    a_blend_does_not_depend_on_the_division, a_blend_has_one_result, block_blends, channel_blends,
    channels_end_together, BypassBlend,
};
use crate::stages::ir::{alone_plays, spreads, wet_channel, IrSlot, IrStage};
use crate::stages::nam::{
    aims, gain_plays, model_plays, side_plays, slot_plays, NamSlot, NamStage, Normalize,
};
use crate::stages::resampler::made_of;
use crate::stages::rules::{
    a_rule_of_all_channels_does_not_hear_the_division, all_go_by, passes_all, rules_look_back_only,
};
use crate::stages::seamless::{
    a_model_does_not_hear_the_division, goes_by, gone_through, model_plays_all, shaping_goes_by,
    streamed, streamed_by_all, the_shaping_does_not_hear_the_division,
};
use crate::stages::streams::{
    amp_plays_all, amp_slot_plays_all, cabinet_plays_all, shaping_passes_all,
};

verus! {

/// Channel 0 of every block, on `channels` channels.
pub open spec fn duplicated(
    blocks: Seq<Seq<Seq<Sample>>>,
    channels: nat,
) -> Seq<Seq<Seq<Sample>>> {
    Seq::new(blocks.len(), |k: int| Seq::new(channels, |d: int| blocks[k][0]))
}

/// What a processor of `channels` channels that is given one signal on all of them makes of it on
/// channel `d`, if it goes by `rule`.
pub open spec fn on_one_signal(
    rule: StreamRule,
    channels: nat,
    d: int,
) -> spec_fn(Seq<Sample>) -> Sample {
    |stream: Seq<Sample>| rule(Seq::new(channels, |e: int| stream), d)
}

/// What reaches the filters of channel `c`: the response in service, which goes by `rule`, or the
/// input itself.
pub open spec fn convolved<A: SampleMath>(
    stage: IrStage<A>,
    rule: StreamRule,
    streams: Seq<Seq<Sample>>,
    c: int,
) -> Seq<Sample> {
    match stage.handover.active {
        Some(slot) => {
            let channels = slot.wet@.len();
            streamed(
                on_one_signal(rule, channels, wet_channel(c, channels as int)),
                streams[0],
            )
        },
        None => streams[c],
    }
}

/// The rule of a cabinet stage without a handover under way whose response goes by `rule` and whose
/// filters and levels go by `shaping`, channel by channel.
pub open spec fn cabinet_rule<A: SampleMath>(
    stage: IrStage<A>,
    rule: StreamRule,
    shaping: Seq<Seq<spec_fn(Seq<Sample>) -> Sample>>,
) -> StreamRule {
    |streams: Seq<Seq<Sample>>, c: int|
        blend_value(
            stage.math,
            streams[c].last(),
            streamed_by_all(shaping[c], convolved(stage, rule, streams, c)).last(),
            position_after(
                stage.math,
                stage.blend.mix,
                stage.wanted(),
                stage.blend.coefficient,
                streams[c].len(),
            ),
        )
}

/// What a cabinet stage without a handover under way does to a stream, taken apart: what reaches
/// the filters, what leaves them, and what the response gave out.
#[verifier::spinoff_prover]
#[verifier::rlimit(40)]
proof fn lemma_cabinet_at_work<A: SampleMath>(
    stage: IrStage<A>,
    blocks: Seq<Seq<Seq<Sample>>>,
    outputs: Seq<Seq<Seq<Sample>>>,
    after: IrStage<A>,
    channels: nat,
    ch: int,
) -> (r: (Seq<Seq<Seq<Sample>>>, Seq<Seq<Seq<Sample>>>, Seq<Seq<Seq<Sample>>>))
    requires
        1 <= channels <= 2,
        0 <= ch < channels,
        single_valued(stage.math),
        stage.handover.fade is None,
        stage.handover.inactive is None,
        stream_of(blocks, channels),
        stream_of(outputs, channels),
        cabinet_plays_all(stage, blocks, outputs, after),
        stage.handover.active matches Some(slot) ==> slot.wet@.len() >= 1,
    ensures
        stream_of(r.0, channels),
        r.0.len() == blocks.len(),
        shaping_passes_all(stage.shaping, r.0, r.1, after.shaping),
        after.math == stage.math,
        after.enabled == stage.enabled,
        after.blend.coefficient == stage.blend.coefficient,
        after.handover.fade is None,
        after.handover.inactive is None,
        joined(outputs, ch).len() == joined(blocks, ch).len(),
        channel_blends(
            stage.math,
            stage.blend.mix,
            stage.wanted(),
            stage.blend.coefficient,
            joined(blocks, ch),
            joined(r.1, ch),
            joined(outputs, ch),
            after.blend.mix,
        ),
        match (stage.handover.active, after.handover.active) {
            (None, None) => r.0 == blocks,
            (Some(slot), Some(left)) => {
                let wide = slot.wet@.len();
                &&& left.wet@.len() == wide
                &&& passes_all(slot.core, duplicated(blocks, wide), r.2, left.core)
                &&& joined(r.0, ch) == joined(r.2, wet_channel(ch, wide as int))
            },
            _ => false,
        },
    decreases blocks.len(),
{
    let blend = stage.blend;
    if blocks.len() == 0 {
        let none = Seq::<Seq<Seq<Sample>>>::empty();
        assert(smooth_path(
            stage.math,
            blend.mix,
            stage.wanted(),
            blend.coefficient,
            seq![blend.mix],
        ));
        assert(blocks =~= none);
        (none, none, none)
    } else {
        let past = blocks.drop_last();
        let input = blocks.last();
        let output = outputs.last();
        let between = choose|between: IrStage<A>|
            {
                &&& cabinet_plays_all(stage, past, outputs.drop_last(), between)
                &&& #[trigger] between.plays(input, output, after)
            };
        let earlier = lemma_cabinet_at_work(
            stage,
            past,
            outputs.drop_last(),
            between,
            channels,
            ch,
        );
        let frames = input[0].len() as int;
        assert(blocks[blocks.len() - 1] == input && outputs[outputs.len() - 1] == output);
        assert(block_of(input, input[0].len()));
        let (active, inactive) = choose|
            active: Option<Box<IrSlot>>,
            inactive: Option<Box<IrSlot>>,
        |
            {
                &&& #[trigger] between.renders(
                    input,
                    output,
                    after.blend.mix,
                    active,
                    inactive,
                    after.shaping,
                )
                &&& after.handover == between.handover.moved_on(active, inactive, frames)
            };
        let heading = BypassBlend { target: between.wanted_after(frames), ..between.blend };
        let (wet, shaped) = choose|wet: Seq<Seq<Sample>>, shaped: Seq<Seq<Sample>>|
            {
                &&& between.wet_plays(input, wet, active, inactive)
                &&& #[trigger] between.shaping.pass(wet, shaped, after.shaping)
                &&& block_blends(stage.math, heading, input, shaped, output, after.blend.mix)
            };
        assert(alone_plays(between.handover.active, input, wet, active));
        let produced = if stage.handover.active is Some {
            choose|produced: Seq<Seq<Sample>>|
                between.handover.active->0.plays(input[0], produced, *active->0)
                    && #[trigger] spreads(produced, wet)
        } else {
            Seq::empty()
        };
        assert forall|c: int| 0 <= c < channels implies (#[trigger] wet[c]).len() == frames
            && shaped[c].len() == frames by {
            if stage.handover.active is Some {
                let slot = between.handover.active->0;
                let wide = slot.wet@.len();
                let d = wet_channel(c, wide as int);
                assert(wet[c] == produced[d]);
                assert(produced[d].len() == Seq::new(wide, |e: int| input[0])[d].len());
            }
        }
        assert(wet[ch].len() == frames);
        assert(wet[channels - 1].len() == frames);
        channels_end_together(stage.math, heading, input, shaped, output, after.blend.mix, ch);
        channels_keep_pace(past, channels, ch);
        a_blend_does_not_depend_on_the_division(
            stage.math,
            blend.mix,
            between.blend.mix,
            after.blend.mix,
            stage.wanted(),
            blend.coefficient,
            (joined(past, ch), input[ch]),
            (joined(earlier.1, ch), shaped[ch]),
            (joined(outputs.drop_last(), ch), output[ch]),
        );
        let wets = earlier.0.push(wet);
        let shapeds = earlier.1.push(shaped);
        let given = earlier.2.push(produced);
        assert(wets.drop_last() =~= earlier.0);
        assert(shapeds.drop_last() =~= earlier.1);
        assert(given.drop_last() =~= earlier.2);
        assert forall|k: int| 0 <= k < wets.len() implies (#[trigger] wets[k]).len() == channels
            && block_of(wets[k], wets[k][0].len()) by {
            if k < earlier.0.len() {
                assert(wets[k] == earlier.0[k]);
            } else {
                assert(wet[0].len() == frames);
            }
        }
        assert(between.shaping.pass(wets.last(), shapeds.last(), after.shaping));
        assert(shaping_passes_all(stage.shaping, wets, shapeds, after.shaping));
        if stage.handover.active is Some {
            let slot = stage.handover.active->0;
            let wide = slot.wet@.len();
            let all = duplicated(blocks, wide);
            let middle = between.handover.active->0;
            let left = after.handover.active->0;
            assert(all.drop_last() =~= duplicated(past, wide));
            assert(all.last() =~= Seq::new(wide, |e: int| input[0]));
            assert(middle.core.passes(all.last(), given.last(), left.core));
            assert(passes_all(slot.core, all, given, left.core));
        } else {
            assert(wets =~= blocks);
        }
        (wets, shapeds, given)
    }
}

/// The same signal on all channels, as a stream.
proof fn lemma_duplicated(blocks: Seq<Seq<Seq<Sample>>>, wide: nat, d: int)
    requires
        0 <= d < wide,
    ensures
        joined(duplicated(blocks, wide), d) == joined(blocks, 0),
        stream_of(duplicated(blocks, wide), wide),
    decreases blocks.len(),
{
    let all = duplicated(blocks, wide);
    assert forall|k: int| 0 <= k < all.len() implies (#[trigger] all[k]).len() == wide && block_of(
        all[k],
        all[k][0].len(),
    ) by {}
    if blocks.len() > 0 {
        lemma_duplicated(blocks.drop_last(), wide, d);
        assert(all.drop_last() =~= duplicated(blocks.drop_last(), wide));
    }
}

/// What a processor of `wide` channels that goes by a rule makes of one signal on all of them.
pub proof fn an_own_signal_goes_by_the_rule(
    core: BoxedStage,
    rule: StreamRule,
    blocks: Seq<Seq<Seq<Sample>>>,
    given: Seq<Seq<Seq<Sample>>>,
    after: BoxedStage,
    wide: nat,
    d: int,
)
    requires
        0 <= d < wide,
        all_go_by(core, rule, wide),
        passes_all(core, duplicated(blocks, wide), given, after),
    ensures
        joined(given, d) == streamed(on_one_signal(rule, wide, d), joined(blocks, 0)),
{
    let all = duplicated(blocks, wide);
    let lead = joined(blocks, 0);
    lemma_duplicated(blocks, wide, d);
    a_rule_of_all_channels_does_not_hear_the_division(core, rule, all, given, after, wide);
    let signal = all_joined(all, wide);
    assert(all_joined(given, wide)[d] == ruled(rule, signal)[d]);
    assert forall|n: int| 0 <= n < lead.len() implies #[trigger] joined(given, d)[n]
        == on_one_signal(rule, wide, d)(lead.take(n + 1)) by {
        assert forall|e: int| 0 <= e < wide implies #[trigger] up_to(signal, n + 1)[e]
            == lead.take(n + 1) by {
            lemma_duplicated(blocks, wide, e);
        }
        assert(up_to(signal, n + 1) =~= Seq::new(wide, |e: int| lead.take(n + 1)));
    }
    assert(joined(given, d) =~= streamed(on_one_signal(rule, wide, d), lead));
}

/// What a rule makes of the beginning of a stream is the beginning of what it makes of it.
pub proof fn lemma_streamed_prefix(
    rule: spec_fn(Seq<Sample>) -> Sample,
    stream: Seq<Sample>,
    n: int,
)
    requires
        0 <= n <= stream.len(),
    ensures
        streamed(rule, stream.take(n)) == streamed(rule, stream).take(n),
{
    let short = streamed(rule, stream.take(n));
    assert forall|i: int| 0 <= i < n implies #[trigger] short[i] == streamed(rule, stream).take(
        n,
    )[i] by {
        assert(stream.take(n).take(i + 1) =~= stream.take(i + 1));
    }
    assert(short =~= streamed(rule, stream).take(n));
}

/// A cabinet stage without a handover under way, whose response, filters and levels each go by a
/// rule, goes by one itself.
pub proof fn a_cabinet_stage_goes_by_its_rule<A: SampleMath>(
    stage: Box<IrStage<A>>,
    rule: StreamRule,
    shaping: Seq<Seq<spec_fn(Seq<Sample>) -> Sample>>,
    channels: nat,
)
    requires
        1 <= channels <= 2,
        single_valued(stage.math),
        stage.handover.fade is None,
        stage.handover.inactive is None,
        stage.handover.active matches Some(slot) ==> slot.wet@.len() >= 1 && all_go_by(
            slot.core,
            rule,
            slot.wet@.len(),
        ),
        shaping_goes_by(stage.shaping.first, shaping[0]),
        channels > 1 ==> shaping_goes_by(stage.shaping.second, shaping[1]),
    ensures
        stage_goes_by(ChainStage::Ir(stage), cabinet_rule(*stage, rule, shaping), channels),
{
    let whole = ChainStage::Ir(stage);
    let own = cabinet_rule(*stage, rule, shaping);
    assert forall|
        blocks: Seq<Seq<Seq<Sample>>>,
        outputs: Seq<Seq<Seq<Sample>>>,
        after: ChainStage<A>,
    |
        stream_of(blocks, channels) && stream_of(outputs, channels) && #[trigger] stage_plays_all(
            whole,
            blocks,
            outputs,
            after,
        ) implies all_joined(outputs, channels) == ruled(own, all_joined(blocks, channels)) by {
        let left = cabinet_in_a_chain(stage, blocks, outputs, after);
        let streams = all_joined(blocks, channels);
        assert forall|c: int| 0 <= c < channels implies #[trigger] all_joined(
            outputs,
            channels,
        )[c] == ruled(own, streams)[c] by {
            lemma_cabinet_channel(*stage, rule, shaping, blocks, outputs, *left, channels, c);
        }
        assert(all_joined(outputs, channels) =~= ruled(own, streams));
    }
}

/// One channel of a cabinet stage without a handover under way.
proof fn lemma_cabinet_channel<A: SampleMath>(
    stage: IrStage<A>,
    rule: StreamRule,
    shaping: Seq<Seq<spec_fn(Seq<Sample>) -> Sample>>,
    blocks: Seq<Seq<Seq<Sample>>>,
    outputs: Seq<Seq<Seq<Sample>>>,
    left: IrStage<A>,
    channels: nat,
    c: int,
)
    requires
        1 <= channels <= 2,
        0 <= c < channels,
        single_valued(stage.math),
        stage.handover.fade is None,
        stage.handover.inactive is None,
        stage.handover.active matches Some(slot) ==> slot.wet@.len() >= 1 && all_go_by(
            slot.core,
            rule,
            slot.wet@.len(),
        ),
        shaping_goes_by(stage.shaping.first, shaping[0]),
        channels > 1 ==> shaping_goes_by(stage.shaping.second, shaping[1]),
        stream_of(blocks, channels),
        stream_of(outputs, channels),
        cabinet_plays_all(stage, blocks, outputs, left),
    ensures
        joined(outputs, c) == ruled(
            cabinet_rule(stage, rule, shaping),
            all_joined(blocks, channels),
        )[c],
{
    let own = cabinet_rule(stage, rule, shaping);
    let streams = all_joined(blocks, channels);
    let (wets, shapeds, given) = lemma_cabinet_at_work(
        stage,
        blocks,
        outputs,
        left,
        channels,
        c,
    );
    let wet = joined(wets, c);
    channels_keep_pace(blocks, channels, c);
    if stage.handover.active is Some {
        let slot = stage.handover.active->0;
        let wide = slot.wet@.len();
        an_own_signal_goes_by_the_rule(
            slot.core,
            rule,
            blocks,
            given,
            left.handover.active->0.core,
            wide,
            wet_channel(c, wide as int),
        );
    }
    assert(wet == convolved(stage, rule, streams, c));
    the_shaping_does_not_hear_the_division(
        stage.shaping,
        shaping[c],
        wets,
        shapeds,
        channels,
        c,
        left.shaping,
    );
    a_blend_has_one_result(
        stage.math,
        stage.blend.mix,
        stage.wanted(),
        stage.blend.coefficient,
        joined(blocks, c),
        joined(shapeds, c),
        joined(outputs, c),
        left.blend.mix,
    );
    assert forall|n: int| 0 <= n < joined(outputs, c).len() implies #[trigger] joined(outputs, c)[n]
        == own(up_to(streams, n + 1), c) by {
        let part = up_to(streams, n + 1);
        assert(part[c] == joined(blocks, c).take(n + 1));
        assert(part[0] == joined(blocks, 0).take(n + 1));
        if stage.handover.active is Some {
            let wide = stage.handover.active->0.wet@.len();
            lemma_streamed_prefix(
                on_one_signal(rule, wide, wet_channel(c, wide as int)),
                joined(blocks, 0),
                n + 1,
            );
        }
        assert(convolved(stage, rule, part, c) == wet.take(n + 1));
        rules_look_back_only(shaping[c], wet, n + 1);
    }
    assert(joined(outputs, c) =~= ruled(own, streams)[c]);
}

/// A cabinet stage in a chain plays a stream as it would on its own.
pub proof fn cabinet_in_a_chain<A: SampleMath>(
    stage: Box<IrStage<A>>,
    blocks: Seq<Seq<Seq<Sample>>>,
    outputs: Seq<Seq<Seq<Sample>>>,
    after: ChainStage<A>,
) -> (left: Box<IrStage<A>>)
    requires
        stage_plays_all(ChainStage::Ir(stage), blocks, outputs, after),
    ensures
        after == ChainStage::Ir(left),
        cabinet_plays_all(*stage, blocks, outputs, *left),
    decreases blocks.len(),
{
    if blocks.len() == 0 {
        stage
    } else {
        let between = choose|between: ChainStage<A>|
            {
                &&& stage_plays_all(
                    ChainStage::Ir(stage),
                    blocks.drop_last(),
                    outputs.drop_last(),
                    between,
                )
                &&& #[trigger] between.plays(blocks.last(), outputs.last(), after)
            };
        let middle = cabinet_in_a_chain(stage, blocks.drop_last(), outputs.drop_last(), between);
        let left = after->Ir_0;
        assert(middle.plays(blocks.last(), outputs.last(), *left));
        left
    }
}

/// Whether a slot's model, with the queues around it if there are any, goes by `rule`.
pub open spec fn model_goes_by(slot: NamSlot, rule: spec_fn(Seq<Sample>) -> Sample) -> bool {
    forall|blocks: Seq<Seq<Seq<Sample>>>, outputs: Seq<Seq<Seq<Sample>>>, after: NamSlot|
        #[trigger] model_plays_all(slot, blocks, outputs, after) ==> joined(outputs, 0) == streamed(
            rule,
            joined(blocks, 0),
        )
}

/// A model at the engine's own rate goes by its processor's rule.
pub proof fn a_model_at_the_own_rate_goes_by_its_rule(
    slot: NamSlot,
    rule: spec_fn(Seq<Sample>) -> Sample,
)
    requires
        slot.resample is None,
        goes_by(slot.core, rule),
    ensures
        model_goes_by(slot, rule),
{
    assert forall|blocks: Seq<Seq<Seq<Sample>>>, outputs: Seq<Seq<Seq<Sample>>>, after: NamSlot|
        #[trigger] model_plays_all(slot, blocks, outputs, after) implies joined(outputs, 0)
        == streamed(rule, joined(blocks, 0)) by {
        a_model_does_not_hear_the_division(slot, blocks, outputs, after);
    }
}

/// Whether a processor that is fed whole chunks goes by `rule`: each sample it gives out is what
/// the rule makes of everything that has gone through it up to the end of the chunk, and of its
/// place in the chunk.
pub open spec fn goes_by_chunks(
    core: BoxedStage,
    rule: spec_fn(Seq<Sample>, int) -> Sample,
    chunk: nat,
) -> bool {
    forall|state: BoxedStage, input: Seq<Sample>, output: Seq<Sample>, after: BoxedStage|
        {
            &&& descends(core, state)
            &&& input.len() == chunk
            &&& #[trigger] runs(state, input, output, after)
        } ==> forall|i: int|
            0 <= i < chunk ==> #[trigger] output[i] == rule(gone_through(core, state) + input, i)
}

/// What a processor that is fed whole chunks makes of a stream, at place `i`.
pub open spec fn made_at(
    rule: spec_fn(Seq<Sample>, int) -> Sample,
    chunk: nat,
    fed: Seq<Sample>,
    i: int,
) -> Sample {
    rule(fed.take((i / chunk as int + 1) * chunk), i % chunk as int)
}

/// Chunk after chunk, a processor that goes by a rule of chunks makes what the rule says.
proof fn lemma_chunks(
    core: BoxedStage,
    rule: spec_fn(Seq<Sample>, int) -> Sample,
    fed: Seq<Sample>,
    made: Seq<Sample>,
    chunk: nat,
    after: BoxedStage,
)
    requires
        chunk >= 1,
        goes_by_chunks(core, rule, chunk),
        made.len() <= fed.len(),
        made_of(core, fed, made, chunk, after),
    ensures
        descends(core, after),
        made.len() % chunk == 0,
        gone_through(core, after) == fed.take(made.len() as int),
        forall|i: int|
            0 <= i < made.len() ==> #[trigger] made[i] == made_at(rule, chunk, fed, i),
    decreases made.len(),
{
    let start = core.0.played().len() as int;
    if made.len() == 0 {
        one_block_more_descends(core, core, seq![], seq![], core);
        assert(core.0.played().skip(start) =~= Seq::<Seq<Seq<Sample>>>::empty());
        assert(fed.take(0) =~= Seq::<Sample>::empty());
    } else {
        let before = made.len() - chunk;
        let input = fed.subrange(before, made.len() as int);
        let output = made.subrange(before, made.len() as int);
        let between = choose|between: BoxedStage|
            {
                &&& #[trigger] runs(between, input, output, after)
                &&& made_of(core, fed, made.take(before), chunk, between)
            };
        lemma_chunks(core, rule, fed, made.take(before), chunk, between);
        one_block_more_descends(core, between, seq![input], seq![output], after);
        let earlier = between.0.played().skip(start);
        let later = after.0.played().skip(start);
        assert(later =~= earlier.push(seq![input]));
        assert(later.drop_last() =~= earlier);
        assert(fed.take(before) + input =~= fed.take(made.len() as int));
        let whole = before / chunk as int;
        lemma_fundamental_div_mod(before, chunk as int);
        assert((whole + 1) * chunk == made.len()) by (nonlinear_arith)
            requires
                before == chunk * whole,
                before == made.len() - chunk,
        ;
        lemma_fundamental_div_mod_converse(made.len() as int, chunk as int, whole + 1, 0);
        assert forall|i: int| 0 <= i < made.len() implies #[trigger] made[i] == made_at(
            rule,
            chunk,
            fed,
            i,
        ) by {
            if i < before {
                assert(made.take(before)[i] == made[i]);
            } else {
                assert(i == whole * chunk + (i - before)) by (nonlinear_arith)
                    requires
                        before == chunk * whole,
                ;
                lemma_fundamental_div_mod_converse(i, chunk as int, whole, i - before);
                assert(output[i - before] == rule(
                    gone_through(core, between) + input,
                    i - before,
                ));
            }
        }
    }
}

/// The rule of a model with queues around it, fed whole chunks: what the output queue holds comes
/// first, then what the model makes of what the input queue holds and the stream behind it.
pub open spec fn queued_rule(
    slot: NamSlot,
    rule: spec_fn(Seq<Sample>, int) -> Sample,
) -> spec_fn(Seq<Sample>) -> Sample {
    |stream: Seq<Sample>|
        {
            let queues = slot.resample->0;
            let n = stream.len() - 1;
            let ready = queues.ready();
            if n < ready.len() {
                ready[n]
            } else {
                made_at(rule, queues.block(), queues.waiting() + stream, n - ready.len())
            }
        }
}

/// A model at another rate, fed whole chunks between its queues, goes by a rule of the samples
/// alone, if its processor goes by one of the chunks.
pub proof fn a_queued_model_goes_by_its_rule(
    slot: NamSlot,
    rule: spec_fn(Seq<Sample>, int) -> Sample,
)
    requires
        slot.wf(),
        slot.resample is Some,
        goes_by_chunks(slot.core, rule, slot.resample->0.block()),
    ensures
        model_goes_by(slot, queued_rule(slot, rule)),
{
    let queues = slot.resample->0;
    let chunk = queues.block();
    let own = queued_rule(slot, rule);
    queues.one_chunk_is_queued();
    assert forall|blocks: Seq<Seq<Seq<Sample>>>, outputs: Seq<Seq<Seq<Sample>>>, after: NamSlot|
        #[trigger] model_plays_all(slot, blocks, outputs, after) implies joined(outputs, 0)
        == streamed(own, joined(blocks, 0)) by {
        a_model_does_not_hear_the_division(slot, blocks, outputs, after);
        let left = after.resample->0;
        let lead = joined(blocks, 0);
        let out = joined(outputs, 0);
        let made = choose|made: Seq<Sample>|
            queues.passed(slot.core, lead, out, left, after.core, made);
        let fed = queues.waiting() + lead;
        lemma_chunks(slot.core, rule, fed, made, chunk, after.core);
        let ready = queues.ready();
        assert((out + left.ready()).len() == (ready + made).len());
        assert forall|n: int| 0 <= n < lead.len() implies #[trigger] out[n] == own(
            lead.take(n + 1),
        ) by {
            assert((out + left.ready())[n] == (ready + made)[n]);
            if n >= ready.len() {
                let i = n - ready.len();
                let part = queues.waiting() + lead.take(n + 1);
                let end = (i / chunk as int + 1) * chunk;
                lemma_fundamental_div_mod(i, chunk as int);
                assert(end <= i + chunk && end >= 0) by (nonlinear_arith)
                    requires
                        i == chunk * (i / chunk as int) + i % chunk as int,
                        0 <= i % chunk as int,
                        0 <= i,
                        chunk >= 1,
                        end == (i / chunk as int + 1) * chunk,
                        i % (chunk as int) < chunk,
                ;
                assert(made[i] == made_at(rule, chunk, fed, i));
                assert(fed.take(end) =~= part.take(end));
            }
        }
        assert(out =~= streamed(own, lead));
    }
}

/// Whether `state` is `core` after it has been told `change`, then perhaps again and nothing else,
/// and has processed some more blocks since.
pub open spec fn descends_told(core: BoxedStage, change: ParamChange, state: BoxedStage) -> bool {
    &&& state.0.identity() == core.0.identity()
    &&& core.0.told().is_prefix_of(state.0.told())
    &&& state.0.told().len() > core.0.told().len()
    &&& forall|k: int|
        core.0.told().len() <= k < state.0.told().len() ==> #[trigger] state.0.told()[k] == change
    &&& core.0.played().is_prefix_of(state.0.played())
    &&& core.0.history().is_prefix_of(state.0.history())
    &&& state.0.history().len() > core.0.history().len()
    &&& state.0.history()[core.0.history().len() as int] == Event::Told(change)
    &&& forall|k: int|
        core.0.history().len() <= k < state.0.history().len() ==> {
            ||| #[trigger] state.0.history()[k] == Event::Told(change)
            ||| state.0.history()[k] is Played
        }
}

/// Whether a processor that is told `change` before every block goes by `rule`: how often it has
/// been told makes no difference.
pub open spec fn heeds(
    core: BoxedStage,
    change: ParamChange,
    rule: spec_fn(Seq<Sample>) -> Sample,
) -> bool {
    forall|state: BoxedStage, input: Seq<Sample>, output: Seq<Sample>, after: BoxedStage|
        descends_told(core, change, state) && #[trigger] runs(state, input, output, after)
            ==> forall|i: int|
            0 <= i < output.len() ==> #[trigger] output[i] == rule(
                gone_through(core, state) + input.take(i + 1),
            )
}

/// The gain a slot heads for, if a sum has only one result.
pub open spec fn aim_value<A: SampleMath>(
    math: A,
    slot: NamSlot,
    normalize: Normalize,
) -> Sample {
    if normalize.enabled {
        choose|target: Sample|
            summed(math, slot.base_normalize_gain_db, normalize.offset_db, target)
    } else {
        Sample::zero()
    }
}

/// What a slot's gain is told before every block.
pub open spec fn gain_order<A: SampleMath>(
    math: A,
    slot: NamSlot,
    normalize: Normalize,
) -> ParamChange {
    ParamChange { id: slot.gain_target, value: aim_value(math, slot, normalize) }
}

/// Whether a slot goes by these rules: its model by the first, its loudness gain by the second.
pub open spec fn slot_goes_by<A: SampleMath>(
    math: A,
    slot: NamSlot,
    normalize: Normalize,
    model: spec_fn(Seq<Sample>) -> Sample,
    gain: spec_fn(Seq<Sample>) -> Sample,
) -> bool {
    &&& model_goes_by(slot, model)
    &&& heeds(slot.normalize_gain, gain_order(math, slot, normalize), gain)
}

/// What reaches the blend: the model in service and its loudness gain, or the input's channel 0
/// itself.
pub open spec fn amplified<A: SampleMath>(
    stage: NamStage<A>,
    model: spec_fn(Seq<Sample>) -> Sample,
    gain: spec_fn(Seq<Sample>) -> Sample,
    lead: Seq<Sample>,
) -> Seq<Sample> {
    match stage.handover.active {
        Some(slot) => streamed(gain, streamed(model, lead)),
        None => lead,
    }
}

/// The rule of an amp stage without a handover under way whose model and loudness gain go by rules.
pub open spec fn amp_rule<A: SampleMath>(
    stage: NamStage<A>,
    model: spec_fn(Seq<Sample>) -> Sample,
    gain: spec_fn(Seq<Sample>) -> Sample,
) -> StreamRule {
    |streams: Seq<Seq<Sample>>, c: int|
        blend_value(
            stage.math,
            streams[c].last(),
            amplified(stage, model, gain, streams[0]).last(),
            position_after(
                stage.math,
                stage.blend.mix,
                stage.wanted(),
                stage.blend.coefficient,
                streams[c].len(),
            ),
        )
}

/// What a slot of the amp stage that goes by rules produces over a stream. An empty one passes
/// channel 0 on.
pub proof fn a_slot_goes_by_its_rules<A: SampleMath>(
    math: A,
    slot: Option<Box<NamSlot>>,
    normalize: Normalize,
    model: spec_fn(Seq<Sample>) -> Sample,
    gain: spec_fn(Seq<Sample>) -> Sample,
    blocks: Seq<Seq<Seq<Sample>>>,
    produced: Seq<Seq<Seq<Sample>>>,
    left: Option<Box<NamSlot>>,
)
    requires
        single_valued(math),
        amp_slot_plays_all(math, slot, normalize, blocks, produced, left),
        slot matches Some(s) ==> slot_goes_by(math, *s, normalize, model, gain),
    ensures
        match slot {
            Some(_) => joined(produced, 0) == streamed(gain, streamed(model, joined(blocks, 0))),
            None => joined(produced, 0) == joined(blocks, 0),
        },
{
    let modelled = lemma_slot_at_work(math, slot, normalize, gain, blocks, produced, left);
}

/// What the model of a slot did over a stream, one channel per block.
proof fn lemma_slot_at_work<A: SampleMath>(
    math: A,
    slot: Option<Box<NamSlot>>,
    normalize: Normalize,
    gain: spec_fn(Seq<Sample>) -> Sample,
    blocks: Seq<Seq<Seq<Sample>>>,
    produced: Seq<Seq<Seq<Sample>>>,
    left: Option<Box<NamSlot>>,
) -> (modelled: Seq<Seq<Seq<Sample>>>)
    requires
        single_valued(math),
        amp_slot_plays_all(math, slot, normalize, blocks, produced, left),
        slot matches Some(s) ==> heeds(
            s.normalize_gain,
            gain_order(math, *s, normalize),
            gain,
        ),
    ensures
        match (slot, left) {
            (None, None) => joined(produced, 0) == joined(blocks, 0),
            (Some(s), Some(l)) => {
                &&& model_plays_all(*s, blocks, modelled, *l)
                &&& joined(produced, 0) == streamed(gain, joined(modelled, 0))
                &&& l.base_normalize_gain_db == s.base_normalize_gain_db
                &&& l.gain_target == s.gain_target
                &&& gone_through(s.normalize_gain, l.normalize_gain) == joined(modelled, 0)
                &&& blocks.len() == 0 ==> l.normalize_gain == s.normalize_gain
                &&& blocks.len() > 0 ==> descends_told(
                    s.normalize_gain,
                    gain_order(math, *s, normalize),
                    l.normalize_gain,
                )
            },
            _ => false,
        },
    decreases blocks.len(),
{
    if blocks.len() == 0 {
        let none = Seq::<Seq<Seq<Sample>>>::empty();
        if let Some(s) = slot {
            let played = s.normalize_gain.0.played();
            assert(played.skip(played.len() as int) =~= none);
            assert(joined(none, 0) =~= streamed(gain, joined(none, 0)));
        }
        none
    } else {
        let past = blocks.drop_last();
        let input = blocks.last()[0];
        let output = produced.last()[0];
        let between = choose|between: Option<Box<NamSlot>>|
            {
                &&& amp_slot_plays_all(
                    math,
                    slot,
                    normalize,
                    past,
                    produced.drop_last(),
                    between,
                )
                &&& #[trigger] side_plays(math, between, normalize, input, output, left)
            };
        let earlier = lemma_slot_at_work(
            math,
            slot,
            normalize,
            gain,
            past,
            produced.drop_last(),
            between,
        );
        match (slot, between, left) {
            (Some(s), Some(middle), Some(l)) => {
                let change = gain_order(math, *s, normalize);
                assert(slot_plays(math, *middle, normalize, input, output, *l));
                let (modelled, target) = choose|modelled: Seq<Sample>, target: Sample|
                    {
                        &&& model_plays(*middle, input, modelled, *l)
                        &&& aims(math, *middle, normalize, target)
                        &&& #[trigger] gain_plays(*middle, target, modelled, output, *l)
                    };
                if normalize.enabled {
                    let base = s.base_normalize_gain_db;
                    assert(summed(math, base, normalize.offset_db, target));
                    assert(summed(
                        math,
                        base,
                        normalize.offset_db,
                        aim_value(math, *s, normalize),
                    ));
                }
                assert(ParamChange { id: middle.gain_target, value: target } == change);
                let told = choose|told: BoxedStage|
                    {
                        &&& #[trigger] runs(told, modelled, output, l.normalize_gain)
                        &&& middle.normalize_gain.hears(
                            seq![ParamChange { id: middle.gain_target, value: target }],
                            told,
                        )
                    };
                let before = joined(earlier, 0);
                lemma_told_once_more(
                    s.normalize_gain,
                    change,
                    gain,
                    middle.normalize_gain,
                    told,
                    modelled,
                    output,
                    l.normalize_gain,
                    before,
                    past.len() > 0,
                );
                let all = earlier.push(seq![modelled]);
                assert(all.drop_last() =~= earlier);
                assert(model_plays(*middle, blocks.last()[0], all.last()[0], *l));
                assert(model_plays_all(*s, blocks, all, *l));
                let sum = before + modelled;
                assert forall|n: int| 0 <= n < sum.len() implies #[trigger] streamed(gain, sum)[n]
                    == (streamed(gain, before) + output)[n] by {
                    if n < before.len() {
                        assert(sum.take(n + 1) =~= before.take(n + 1));
                    } else {
                        let i = n - before.len();
                        assert(sum.take(n + 1) =~= before + modelled.take(i + 1));
                        assert(output[i] == gain(before + modelled.take(i + 1)));
                    }
                }
                assert(streamed(gain, sum) =~= streamed(gain, before) + output);
                all
            },
            _ => earlier,
        }
    }
}

/// What an amp stage without a handover under way does to a stream, taken apart: what its slot gave
/// out, one channel per block.
#[verifier::spinoff_prover]
#[verifier::rlimit(40)]
proof fn lemma_amp_at_work<A: SampleMath>(
    stage: NamStage<A>,
    blocks: Seq<Seq<Seq<Sample>>>,
    outputs: Seq<Seq<Seq<Sample>>>,
    after: NamStage<A>,
    channels: nat,
    ch: int,
) -> (produced: Seq<Seq<Seq<Sample>>>)
    requires
        0 <= ch < channels,
        single_valued(stage.math),
        stage.handover.fade is None,
        stage.handover.inactive is None,
        stream_of(blocks, channels),
        stream_of(outputs, channels),
        amp_plays_all(stage, blocks, outputs, after),
    ensures
        after.math == stage.math,
        after.enabled == stage.enabled,
        after.normalize() == stage.normalize(),
        after.blend.coefficient == stage.blend.coefficient,
        after.handover.fade is None,
        after.handover.inactive is None,
        after.handover.active is Some == stage.handover.active is Some,
        joined(outputs, ch).len() == joined(blocks, ch).len(),
        channel_blends(
            stage.math,
            stage.blend.mix,
            stage.wanted(),
            stage.blend.coefficient,
            joined(blocks, ch),
            joined(produced, 0),
            joined(outputs, ch),
            after.blend.mix,
        ),
        amp_slot_plays_all(
            stage.math,
            stage.handover.active,
            stage.normalize(),
            blocks,
            produced,
            after.handover.active,
        ),
    decreases blocks.len(),
{
    let blend = stage.blend;
    if blocks.len() == 0 {
        assert(smooth_path(
            stage.math,
            blend.mix,
            stage.wanted(),
            blend.coefficient,
            seq![blend.mix],
        ));
        Seq::empty()
    } else {
        let past = blocks.drop_last();
        let input = blocks.last();
        let output = outputs.last();
        let between = choose|between: NamStage<A>|
            {
                &&& amp_plays_all(stage, past, outputs.drop_last(), between)
                &&& #[trigger] between.plays(input, output, after)
            };
        let earlier = lemma_amp_at_work(
            stage,
            past,
            outputs.drop_last(),
            between,
            channels,
            ch,
        );
        let frames = input[0].len() as int;
        assert(blocks[blocks.len() - 1] == input && outputs[outputs.len() - 1] == output);
        assert(block_of(input, input[0].len()));
        let (active, inactive) = choose|
            active: Option<Box<NamSlot>>,
            inactive: Option<Box<NamSlot>>,
        |
            {
                &&& #[trigger] between.renders(input, output, after.blend.mix, active, inactive)
                &&& after.handover == between.handover.moved_on(active, inactive, frames)
            };
        let heading = BypassBlend { target: between.wanted_after(frames), ..between.blend };
        let wet = choose|wet: Seq<Sample>|
            {
                &&& #[trigger] between.wet_plays(input[0], wet, active, inactive)
                &&& block_blends(
                    stage.math,
                    heading,
                    input,
                    Seq::new(input.len(), |c: int| wet),
                    output,
                    after.blend.mix,
                )
            };
        assert(between.side(between.handover.active, input[0], wet, active));
        channels_end_together(
            stage.math,
            heading,
            input,
            Seq::new(input.len(), |c: int| wet),
            output,
            after.blend.mix,
            ch,
        );
        channels_keep_pace(past, channels, ch);
        a_blend_does_not_depend_on_the_division(
            stage.math,
            blend.mix,
            between.blend.mix,
            after.blend.mix,
            stage.wanted(),
            blend.coefficient,
            (joined(past, ch), input[ch]),
            (joined(earlier, 0), wet),
            (joined(outputs.drop_last(), ch), output[ch]),
        );
        let produced = earlier.push(seq![wet]);
        assert(produced.drop_last() =~= earlier);
        assert(side_plays(
            stage.math,
            between.handover.active,
            stage.normalize(),
            blocks.last()[0],
            produced.last()[0],
            after.handover.active,
        ));
        produced
    }
}

/// One block more of a gain that is told the same before every block.
proof fn lemma_told_once_more(
    core: BoxedStage,
    change: ParamChange,
    rule: spec_fn(Seq<Sample>) -> Sample,
    middle: BoxedStage,
    told: BoxedStage,
    input: Seq<Sample>,
    output: Seq<Sample>,
    after: BoxedStage,
    before: Seq<Sample>,
    begun: bool,
)
    requires
        heeds(core, change, rule),
        !begun ==> middle == core,
        begun ==> descends_told(core, change, middle),
        gone_through(core, middle) == before,
        middle.hears(seq![change], told),
        runs(told, input, output, after),
    ensures
        descends_told(core, change, after),
        gone_through(core, after) == before + input,
        forall|i: int|
            0 <= i < output.len() ==> #[trigger] output[i] == rule(before + input.take(i + 1)),
{
    let start = core.0.played().len() as int;
    assert forall|k: int| core.0.told().len() <= k < told.0.told().len() implies #[trigger]
        told.0.told()[k] == change by {
        if k < middle.0.told().len() {
            assert(told.0.told()[k] == middle.0.told()[k]);
        }
    }
    assert(core.0.told().is_prefix_of(told.0.told()));
    let since = core.0.history().len() as int;
    assert(told.0.history() =~= middle.0.history().push(Event::Told(change)));
    assert forall|k: int| since <= k < told.0.history().len() implies {
        ||| #[trigger] told.0.history()[k] == Event::Told(change)
        ||| told.0.history()[k] is Played
    } by {
        if k < middle.0.history().len() {
            assert(told.0.history()[k] == middle.0.history()[k]);
        }
    }
    assert(core.0.history().is_prefix_of(told.0.history()));
    assert(descends_told(core, change, told));
    assert(gone_through(core, told) == before);
    let earlier = told.0.played().skip(start);
    let later = after.0.played().skip(start);
    assert(later =~= earlier.push(seq![input]));
    assert(later.drop_last() =~= earlier);
    assert forall|k: int| since <= k < after.0.history().len() implies {
        ||| #[trigger] after.0.history()[k] == Event::Told(change)
        ||| after.0.history()[k] is Played
    } by {
        if k < told.0.history().len() {
            assert(after.0.history()[k] == told.0.history()[k]);
        }
    }
}

/// An amp stage without a handover under way, whose model and loudness gain go by rules, goes by
/// one itself.
pub proof fn an_amp_stage_goes_by_its_rule<A: SampleMath>(
    stage: Box<NamStage<A>>,
    model: spec_fn(Seq<Sample>) -> Sample,
    gain: spec_fn(Seq<Sample>) -> Sample,
    channels: nat,
)
    requires
        channels >= 1,
        single_valued(stage.math),
        stage.handover.fade is None,
        stage.handover.inactive is None,
        stage.handover.active matches Some(slot) ==> slot_goes_by(
            stage.math,
            *slot,
            stage.normalize(),
            model,
            gain,
        ),
    ensures
        stage_goes_by(ChainStage::Nam(stage), amp_rule(*stage, model, gain), channels),
{
    let whole = ChainStage::Nam(stage);
    let own = amp_rule(*stage, model, gain);
    assert forall|
        blocks: Seq<Seq<Seq<Sample>>>,
        outputs: Seq<Seq<Seq<Sample>>>,
        after: ChainStage<A>,
    |
        stream_of(blocks, channels) && stream_of(outputs, channels) && #[trigger] stage_plays_all(
            whole,
            blocks,
            outputs,
            after,
        ) implies all_joined(outputs, channels) == ruled(own, all_joined(blocks, channels)) by {
        let left = amp_in_a_chain(stage, blocks, outputs, after);
        let streams = all_joined(blocks, channels);
        let lead = joined(blocks, 0);
        assert forall|c: int| 0 <= c < channels implies #[trigger] all_joined(
            outputs,
            channels,
        )[c] == ruled(own, streams)[c] by {
            let produced = lemma_amp_at_work(*stage, blocks, outputs, *left, channels, c);
            a_slot_goes_by_its_rules(
                stage.math,
                stage.handover.active,
                stage.normalize(),
                model,
                gain,
                blocks,
                produced,
                left.handover.active,
            );
            let wet = joined(produced, 0);
            assert(wet == amplified(*stage, model, gain, lead));
            a_blend_has_one_result(
                stage.math,
                stage.blend.mix,
                stage.wanted(),
                stage.blend.coefficient,
                joined(blocks, c),
                wet,
                joined(outputs, c),
                left.blend.mix,
            );
            channels_keep_pace(blocks, channels, c);
            assert forall|n: int| 0 <= n < joined(outputs, c).len() implies #[trigger] joined(
                outputs,
                c,
            )[n] == own(up_to(streams, n + 1), c) by {
                let part = up_to(streams, n + 1);
                assert(part[c] == joined(blocks, c).take(n + 1));
                assert(part[0] == lead.take(n + 1));
                lemma_streamed_prefix(model, lead, n + 1);
                lemma_streamed_prefix(gain, streamed(model, lead), n + 1);
                assert(amplified(*stage, model, gain, part[0]) == wet.take(n + 1));
            }
            assert(joined(outputs, c) =~= ruled(own, streams)[c]);
        }
        assert(all_joined(outputs, channels) =~= ruled(own, streams));
    }
}

/// An amp stage in a chain plays a stream as it would on its own.
pub proof fn amp_in_a_chain<A: SampleMath>(
    stage: Box<NamStage<A>>,
    blocks: Seq<Seq<Seq<Sample>>>,
    outputs: Seq<Seq<Seq<Sample>>>,
    after: ChainStage<A>,
) -> (left: Box<NamStage<A>>)
    requires
        stage_plays_all(ChainStage::Nam(stage), blocks, outputs, after),
    ensures
        after == ChainStage::Nam(left),
        amp_plays_all(*stage, blocks, outputs, *left),
    decreases blocks.len(),
{
    if blocks.len() == 0 {
        stage
    } else {
        let between = choose|between: ChainStage<A>|
            {
                &&& stage_plays_all(
                    ChainStage::Nam(stage),
                    blocks.drop_last(),
                    outputs.drop_last(),
                    between,
                )
                &&& #[trigger] between.plays(blocks.last(), outputs.last(), after)
            };
        let middle = amp_in_a_chain(stage, blocks.drop_last(), outputs.drop_last(), between);
        let left = after->Nam_0;
        assert(middle.plays(blocks.last(), outputs.last(), *left));
        left
    }
}

} // verus!
