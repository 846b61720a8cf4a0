//! Processors and stages to which the division of a stream into blocks makes no difference.
//!
//! A processor need not be like that: it may look at a block as a whole. One that is not tells a
//! stream apart by its samples alone, and so does a row of them.

use vstd::prelude::*;

use crate::math::{exact_at_rest, faded, smooth_path, steady, SampleMath};
use crate::sample::Sample;
use crate::stage::{descends, one_block_more_descends, runs, BoxedStage};
use crate::stage_io::{block_of, channels_keep_pace, joined, stream_of};
use crate::stages::bypass::{
    a_blend_at_rest_is_one_side, a_blend_does_not_depend_on_the_division, block_blends,
    channel_blends, channels_end_together,
};
use crate::stages::eq::{EqBands, EqStage};
use crate::stages::gate::GateStage;
use crate::stages::handover::Crossfade;
use crate::stages::ir::{IrSlot, IrStage};
use crate::stages::ir_filters::{IrChannel, IrShaping};
use crate::stages::nam::{
    aims, fade_renders, gain_plays, model_plays, side_plays, slot_plays, NamSlot, Normalize,
};
use crate::stages::resampler::division_into_blocks_is_invisible;
use crate::stages::streams::{
    a_first_response_fades_in_wherever_blocks_end, amp_slot_plays_all, cabinet_fades_in,
    cabinet_plays_all, cabinet_slot_plays_all, shaping_passes_all,
};

verus! {

/// What a rule that turns everything up to a sample into a sample makes of a whole stream.
pub open spec fn streamed(
    rule: spec_fn(Seq<Sample>) -> Sample,
    stream: Seq<Sample>,
) -> Seq<Sample> {
    Seq::new(stream.len(), |n: int| rule(stream.take(n + 1)))
}

/// What has gone through `state`, one channel of it, since it was `core`.
pub open spec fn gone_through(core: BoxedStage, state: BoxedStage) -> Seq<Sample> {
    joined(state.0.played().skip(core.0.played().len() as int), 0)
}

/// Whether a processor that is told nothing more goes by `rule`: each sample it gives out is what
/// the rule makes of everything that has gone through it from here on, up to that sample. Where
/// blocks ended does not enter into it.
pub open spec fn goes_by(core: BoxedStage, rule: spec_fn(Seq<Sample>) -> Sample) -> bool {
    forall|state: BoxedStage, input: Seq<Sample>, output: Seq<Sample>, after: BoxedStage|
        {
            &&& descends(core, state)
            &&& #[trigger] runs(state, input, output, after)
        } ==> forall|i: int|
            0 <= i < output.len() ==> #[trigger] output[i] == rule(
                gone_through(core, state) + input.take(i + 1),
            )
}

/// Whether a processor that is handed channel `from` of every block may turn it into channel `to`
/// of `outputs` and be left as `after`.
pub open spec fn runs_all(
    core: BoxedStage,
    blocks: Seq<Seq<Seq<Sample>>>,
    from: int,
    outputs: Seq<Seq<Seq<Sample>>>,
    to: int,
    after: BoxedStage,
) -> bool
    decreases blocks.len(),
{
    &&& outputs.len() == blocks.len()
    &&& if blocks.len() == 0 {
        after == core
    } else {
        exists|between: BoxedStage|
            {
                &&& runs_all(core, blocks.drop_last(), from, outputs.drop_last(), to, between)
                &&& #[trigger] runs(between, blocks.last()[from], outputs.last()[to], after)
            }
    }
}

/// One block more.
proof fn lemma_runs_on(
    core: BoxedStage,
    between: BoxedStage,
    blocks: Seq<Seq<Seq<Sample>>>,
    from: int,
    outputs: Seq<Seq<Seq<Sample>>>,
    to: int,
    after: BoxedStage,
)
    requires
        blocks.len() > 0,
        outputs.len() == blocks.len(),
        runs_all(core, blocks.drop_last(), from, outputs.drop_last(), to, between),
        runs(between, blocks.last()[from], outputs.last()[to], after),
    ensures
        runs_all(core, blocks, from, outputs, to, after),
{
}

/// A processor that goes by a rule turns a stream into what the rule makes of it, however it is
/// divided into blocks.
pub proof fn a_rule_does_not_hear_the_division(
    core: BoxedStage,
    rule: spec_fn(Seq<Sample>) -> Sample,
    blocks: Seq<Seq<Seq<Sample>>>,
    from: int,
    outputs: Seq<Seq<Seq<Sample>>>,
    to: int,
    after: BoxedStage,
)
    requires
        goes_by(core, rule),
        runs_all(core, blocks, from, outputs, to, after),
    ensures
        joined(outputs, to) == streamed(rule, joined(blocks, from)),
        gone_through(core, after) == joined(blocks, from),
        descends(core, after),
    decreases blocks.len(),
{
    let start = core.0.played().len() as int;
    if blocks.len() == 0 {
        one_block_more_descends(core, core, seq![], seq![], core);
        assert(core.0.played().skip(start) =~= Seq::<Seq<Seq<Sample>>>::empty());
        assert(joined(outputs, to) =~= streamed(rule, joined(blocks, from)));
    } else {
        let past = blocks.drop_last();
        let input = blocks.last()[from];
        let output = outputs.last()[to];
        let between = choose|between: BoxedStage|
            {
                &&& runs_all(core, past, from, outputs.drop_last(), to, between)
                &&& #[trigger] runs(between, input, output, after)
            };
        a_rule_does_not_hear_the_division(
            core,
            rule,
            past,
            from,
            outputs.drop_last(),
            to,
            between,
        );
        one_block_more_descends(core, between, seq![input], seq![output], after);
        let earlier = between.0.played().skip(start);
        let later = after.0.played().skip(start);
        assert(later =~= earlier.push(seq![input]));
        assert(later.drop_last() =~= earlier);
        let whole = joined(blocks, from);
        assert forall|n: int| 0 <= n < whole.len() implies #[trigger] joined(outputs, to)[n]
            == rule(whole.take(n + 1)) by {
            let before = joined(past, from);
            if n < before.len() {
                assert(whole.take(n + 1) =~= before.take(n + 1));
                assert(joined(outputs.drop_last(), to)[n] == streamed(rule, before)[n]);
            } else {
                let i = n - before.len();
                assert(whole.take(n + 1) =~= before + input.take(i + 1));
                assert(output[i] == rule(gone_through(core, between) + input.take(i + 1)));
            }
        }
        assert(joined(outputs, to) =~= streamed(rule, whole));
    }
}

/// The rules of one channel's five filters, in the order in which a block passes them.
pub open spec fn bands_go_by(
    bands: EqBands,
    rules: Seq<spec_fn(Seq<Sample>) -> Sample>,
) -> bool {
    &&& rules.len() == 5
    &&& goes_by(bands.high_pass, rules[0])
    &&& goes_by(bands.low_shelf, rules[1])
    &&& goes_by(bands.mid, rules[2])
    &&& goes_by(bands.high_shelf, rules[3])
    &&& goes_by(bands.low_pass, rules[4])
}

/// What rules, one after the other, make of a stream.
pub open spec fn streamed_by_all(
    rules: Seq<spec_fn(Seq<Sample>) -> Sample>,
    stream: Seq<Sample>,
) -> Seq<Sample>
    decreases rules.len(),
{
    if rules.len() == 0 {
        stream
    } else {
        streamed(rules.last(), streamed_by_all(rules.drop_last(), stream))
    }
}

/// Whether one channel's five filters may turn channel `ch` of every block into that of `outputs`
/// and be left as `after`.
pub open spec fn bands_pass_all(
    bands: EqBands,
    blocks: Seq<Seq<Seq<Sample>>>,
    outputs: Seq<Seq<Seq<Sample>>>,
    ch: int,
    after: EqBands,
) -> bool
    decreases blocks.len(),
{
    &&& outputs.len() == blocks.len()
    &&& if blocks.len() == 0 {
        after == bands
    } else {
        exists|between: EqBands|
            {
                &&& bands_pass_all(bands, blocks.drop_last(), outputs.drop_last(), ch, between)
                &&& #[trigger] between.pass(blocks.last()[ch], outputs.last()[ch], after)
            }
    }
}

/// What stands between the five filters of a channel over a stream, one channel per block.
proof fn lemma_between_the_bands(
    bands: EqBands,
    blocks: Seq<Seq<Seq<Sample>>>,
    outputs: Seq<Seq<Seq<Sample>>>,
    ch: int,
    after: EqBands,
) -> (r: (
    Seq<Seq<Seq<Sample>>>,
    Seq<Seq<Seq<Sample>>>,
    Seq<Seq<Seq<Sample>>>,
    Seq<Seq<Seq<Sample>>>,
))
    requires
        bands_pass_all(bands, blocks, outputs, ch, after),
    ensures
        runs_all(bands.high_pass, blocks, ch, r.0, 0, after.high_pass),
        runs_all(bands.low_shelf, r.0, 0, r.1, 0, after.low_shelf),
        runs_all(bands.mid, r.1, 0, r.2, 0, after.mid),
        runs_all(bands.high_shelf, r.2, 0, r.3, 0, after.high_shelf),
        runs_all(bands.low_pass, r.3, 0, outputs, ch, after.low_pass),
    decreases blocks.len(),
{
    if blocks.len() == 0 {
        let none = Seq::<Seq<Seq<Sample>>>::empty();
        (none, none, none, none)
    } else {
        let input = blocks.last()[ch];
        let output = outputs.last()[ch];
        let between = choose|between: EqBands|
            {
                &&& bands_pass_all(bands, blocks.drop_last(), outputs.drop_last(), ch, between)
                &&& #[trigger] between.pass(input, output, after)
            };
        let past = lemma_between_the_bands(
            bands,
            blocks.drop_last(),
            outputs.drop_last(),
            ch,
            between,
        );
        let (high_passed, low_shelved, belled, high_shelved) = choose|
            high_passed: Seq<Sample>,
            low_shelved: Seq<Sample>,
            belled: Seq<Sample>,
            high_shelved: Seq<Sample>,
        |
            {
                &&& #[trigger] runs(between.high_pass, input, high_passed, after.high_pass)
                &&& #[trigger] runs(between.low_shelf, high_passed, low_shelved, after.low_shelf)
                &&& #[trigger] runs(between.mid, low_shelved, belled, after.mid)
                &&& #[trigger] runs(between.high_shelf, belled, high_shelved, after.high_shelf)
                &&& runs(between.low_pass, high_shelved, output, after.low_pass)
            };
        let r = (
            past.0.push(seq![high_passed]),
            past.1.push(seq![low_shelved]),
            past.2.push(seq![belled]),
            past.3.push(seq![high_shelved]),
        );
        assert(r.0.drop_last() =~= past.0);
        assert(r.1.drop_last() =~= past.1);
        assert(r.2.drop_last() =~= past.2);
        assert(r.3.drop_last() =~= past.3);
        lemma_runs_on(
            bands.high_pass,
            between.high_pass,
            blocks,
            ch,
            r.0,
            0,
            after.high_pass,
        );
        lemma_runs_on(bands.low_shelf, between.low_shelf, r.0, 0, r.1, 0, after.low_shelf);
        lemma_runs_on(bands.mid, between.mid, r.1, 0, r.2, 0, after.mid);
        lemma_runs_on(bands.high_shelf, between.high_shelf, r.2, 0, r.3, 0, after.high_shelf);
        lemma_runs_on(
            bands.low_pass,
            between.low_pass,
            r.3,
            0,
            outputs,
            ch,
            after.low_pass,
        );
        r
    }
}

/// Five filters that each go by a rule turn a channel of a stream into what the rules, one after
/// the other, make of it, however the stream is divided into blocks.
pub proof fn bands_do_not_hear_the_division(
    bands: EqBands,
    rules: Seq<spec_fn(Seq<Sample>) -> Sample>,
    blocks: Seq<Seq<Seq<Sample>>>,
    outputs: Seq<Seq<Seq<Sample>>>,
    ch: int,
    after: EqBands,
)
    requires
        bands_go_by(bands, rules),
        bands_pass_all(bands, blocks, outputs, ch, after),
    ensures
        joined(outputs, ch) == streamed_by_all(rules, joined(blocks, ch)),
{
    let (a, b, c, d) = lemma_between_the_bands(bands, blocks, outputs, ch, after);
    a_rule_does_not_hear_the_division(
        bands.high_pass,
        rules[0],
        blocks,
        ch,
        a,
        0,
        after.high_pass,
    );
    a_rule_does_not_hear_the_division(bands.low_shelf, rules[1], a, 0, b, 0, after.low_shelf);
    a_rule_does_not_hear_the_division(bands.mid, rules[2], b, 0, c, 0, after.mid);
    a_rule_does_not_hear_the_division(bands.high_shelf, rules[3], c, 0, d, 0, after.high_shelf);
    a_rule_does_not_hear_the_division(
        bands.low_pass,
        rules[4],
        d,
        0,
        outputs,
        ch,
        after.low_pass,
    );
    reveal_with_fuel(streamed_by_all, 6);
}

/// Whether the equaliser may turn the stream `blocks` into `outputs` and be left as `after`.
pub open spec fn equaliser_plays_all(
    stage: EqStage,
    blocks: Seq<Seq<Seq<Sample>>>,
    outputs: Seq<Seq<Seq<Sample>>>,
    after: EqStage,
) -> bool
    decreases blocks.len(),
{
    &&& outputs.len() == blocks.len()
    &&& if blocks.len() == 0 {
        after == stage
    } else {
        exists|between: EqStage|
            {
                &&& equaliser_plays_all(stage, blocks.drop_last(), outputs.drop_last(), between)
                &&& #[trigger] between.plays(blocks.last(), outputs.last(), after)
            }
    }
}

/// An equaliser whose filters each go by a rule turns every channel of a stream into what that
/// channel's own rules make of that channel alone, however the stream is divided into blocks and
/// whatever the other channel is given.
pub proof fn the_equaliser_does_not_hear_the_division(
    stage: EqStage,
    rules: Seq<spec_fn(Seq<Sample>) -> Sample>,
    blocks: Seq<Seq<Seq<Sample>>>,
    outputs: Seq<Seq<Seq<Sample>>>,
    channels: nat,
    ch: int,
    after: EqStage,
)
    requires
        1 <= channels <= 2,
        0 <= ch < channels,
        stream_of(blocks, channels),
        equaliser_plays_all(stage, blocks, outputs, after),
        ch == 0 ==> bands_go_by(stage.first, rules),
        ch == 1 ==> bands_go_by(stage.second, rules),
    ensures
        joined(outputs, ch) == streamed_by_all(rules, joined(blocks, ch)),
{
    lemma_channel_of_the_equaliser(stage, blocks, outputs, channels, ch, after);
    if ch == 0 {
        bands_do_not_hear_the_division(stage.first, rules, blocks, outputs, ch, after.first);
    } else {
        bands_do_not_hear_the_division(stage.second, rules, blocks, outputs, ch, after.second);
    }
}

/// What comes out of a channel of the equaliser is the same in two runs in which that channel is
/// given the same, whatever the other channel is given and however the streams are divided into
/// blocks, if that channel's filters go by rules: no filter hears another channel.
pub proof fn a_channel_of_the_equaliser_does_not_hear_the_other(
    stage: EqStage,
    rules: Seq<spec_fn(Seq<Sample>) -> Sample>,
    blocks: (Seq<Seq<Seq<Sample>>>, Seq<Seq<Seq<Sample>>>),
    outputs: (Seq<Seq<Seq<Sample>>>, Seq<Seq<Seq<Sample>>>),
    after: (EqStage, EqStage),
    channels: nat,
    ch: int,
)
    requires
        1 <= channels <= 2,
        0 <= ch < channels,
        ch == 0 ==> bands_go_by(stage.first, rules),
        ch == 1 ==> bands_go_by(stage.second, rules),
        stream_of(blocks.0, channels),
        stream_of(blocks.1, channels),
        joined(blocks.0, ch) == joined(blocks.1, ch),
        equaliser_plays_all(stage, blocks.0, outputs.0, after.0),
        equaliser_plays_all(stage, blocks.1, outputs.1, after.1),
    ensures
        joined(outputs.0, ch) == joined(outputs.1, ch),
{
    the_equaliser_does_not_hear_the_division(
        stage,
        rules,
        blocks.0,
        outputs.0,
        channels,
        ch,
        after.0,
    );
    the_equaliser_does_not_hear_the_division(
        stage,
        rules,
        blocks.1,
        outputs.1,
        channels,
        ch,
        after.1,
    );
}

/// Over a stream, each channel passes its own five filters.
proof fn lemma_channel_of_the_equaliser(
    stage: EqStage,
    blocks: Seq<Seq<Seq<Sample>>>,
    outputs: Seq<Seq<Seq<Sample>>>,
    channels: nat,
    ch: int,
    after: EqStage,
)
    requires
        1 <= channels <= 2,
        0 <= ch < channels,
        stream_of(blocks, channels),
        equaliser_plays_all(stage, blocks, outputs, after),
    ensures
        ch == 0 ==> bands_pass_all(stage.first, blocks, outputs, ch, after.first),
        ch == 1 ==> bands_pass_all(stage.second, blocks, outputs, ch, after.second),
    decreases blocks.len(),
{
    if blocks.len() > 0 {
        let between = choose|between: EqStage|
            {
                &&& equaliser_plays_all(stage, blocks.drop_last(), outputs.drop_last(), between)
                &&& #[trigger] between.plays(blocks.last(), outputs.last(), after)
            };
        lemma_channel_of_the_equaliser(
            stage,
            blocks.drop_last(),
            outputs.drop_last(),
            channels,
            ch,
            between,
        );
        assert(blocks[blocks.len() - 1].len() == channels);
        if ch == 0 {
            assert(between.first.pass(blocks.last()[ch], outputs.last()[ch], after.first));
        } else {
            assert(between.second.pass(blocks.last()[ch], outputs.last()[ch], after.second));
        }
    }
}

/// The rules of one channel's low cut, high cut and level.
pub open spec fn shaping_goes_by(
    channel: IrChannel,
    rules: Seq<spec_fn(Seq<Sample>) -> Sample>,
) -> bool {
    &&& rules.len() == 3
    &&& goes_by(channel.low_cut, rules[0])
    &&& goes_by(channel.high_cut, rules[1])
    &&& goes_by(channel.level, rules[2])
}

/// The cabinet's cut filters and level, if each goes by a rule, turn every channel of a stream into
/// what that channel's own rules make of it, however the stream is divided into blocks.
pub proof fn the_shaping_does_not_hear_the_division(
    shaping: IrShaping,
    rules: Seq<spec_fn(Seq<Sample>) -> Sample>,
    blocks: Seq<Seq<Seq<Sample>>>,
    outputs: Seq<Seq<Seq<Sample>>>,
    channels: nat,
    ch: int,
    after: IrShaping,
)
    requires
        1 <= channels <= 2,
        0 <= ch < channels,
        stream_of(blocks, channels),
        shaping_passes_all(shaping, blocks, outputs, after),
        ch == 0 ==> shaping_goes_by(shaping.first, rules),
        ch == 1 ==> shaping_goes_by(shaping.second, rules),
    ensures
        joined(outputs, ch) == streamed_by_all(rules, joined(blocks, ch)),
{
    let (a, b) = lemma_between_the_cuts(shaping, blocks, outputs, channels, ch, after);
    let (before, later) = if ch == 0 {
        (shaping.first, after.first)
    } else {
        (shaping.second, after.second)
    };
    a_rule_does_not_hear_the_division(before.low_cut, rules[0], blocks, ch, a, 0, later.low_cut);
    a_rule_does_not_hear_the_division(before.high_cut, rules[1], a, 0, b, 0, later.high_cut);
    a_rule_does_not_hear_the_division(before.level, rules[2], b, 0, outputs, ch, later.level);
    reveal_with_fuel(streamed_by_all, 4);
}

/// With nothing to shape and exact arithmetic at rest, the first frame of a first response is the
/// input's own, sample for sample, on every channel, however the stream is divided into blocks.
pub proof fn a_first_response_is_silent_on_its_first_frame<A: SampleMath>(
    stage: IrStage<A>,
    slot: Box<IrSlot>,
    rules: Seq<spec_fn(Seq<Sample>) -> Sample>,
    blocks: Seq<Seq<Seq<Sample>>>,
    outputs: Seq<Seq<Seq<Sample>>>,
    after: IrStage<A>,
    channels: nat,
    ch: int,
)
    requires
        stage.enabled,
        stage.handover.wf(),
        !stage.handover.sounds(),
        1 <= channels <= 2,
        stream_of(blocks, channels),
        stream_of(outputs, channels),
        0 <= ch < channels,
        ch == channels - 1 || steady(stage.math),
        exact_at_rest(stage.math),
        stage.blend.coefficient.finite(),
        ch == 0 ==> shaping_goes_by(stage.shaping.first, rules),
        ch == 1 ==> shaping_goes_by(stage.shaping.second, rules),
        forall|k: int, stream: Seq<Sample>|
            0 <= k < rules.len() && stream.len() > 0 ==> #[trigger] rules[k](stream)
                == stream.last(),
        cabinet_plays_all(stage.begun(Some(slot), 0), blocks, outputs, after),
        blocks.len() > 0 ==> joined(blocks.drop_last(), 0).len() < stage.handover.length,
        joined(outputs, ch).len() > 0,
        joined(blocks, 0)[0].plain(),
        joined(blocks, ch)[0].finite(),
    ensures
        exists|heard: Seq<Seq<Seq<Sample>>>, left: Option<Box<IrSlot>>|
            {
                &&& #[trigger] cabinet_slot_plays_all(Some(slot), blocks, heard, left)
                &&& joined(heard, ch)[0].finite() ==> joined(outputs, ch)[0] == joined(
                    blocks,
                    0,
                )[0]
            },
{
    a_first_response_fades_in_wherever_blocks_end(
        stage,
        slot,
        blocks,
        outputs,
        after,
        channels,
        ch,
    );
    let out = joined(outputs, ch);
    let (heard, left) = choose|heard: Seq<Seq<Seq<Sample>>>, left: Option<Box<IrSlot>>|
        {
            &&& #[trigger] cabinet_slot_plays_all(Some(slot), blocks, heard, left)
            &&& cabinet_fades_in(stage, blocks, heard, out, channels, ch, after)
        };
    let fade = Crossfade::fresh(0, stage.handover.length);
    let (wet, shaped) = choose|wet: Seq<Seq<Seq<Sample>>>, shaped: Seq<Seq<Seq<Sample>>>|
        {
            &&& stream_of(wet, channels)
            &&& fade_renders(
                stage.math,
                fade,
                joined(blocks, 0),
                joined(heard, ch),
                joined(wet, ch),
            )
            &&& #[trigger] shaping_passes_all(stage.shaping, wet, shaped, after.shaping)
            &&& channel_blends(
                stage.math,
                Sample::one(),
                Sample::one(),
                stage.blend.coefficient,
                joined(blocks, ch),
                joined(shaped, ch),
                out,
                after.blend.mix,
            )
        };
    the_shaping_does_not_hear_the_division(
        stage.shaping,
        rules,
        wet,
        shaped,
        channels,
        ch,
        after.shaping,
    );
    let lead = joined(wet, ch);
    reveal_with_fuel(streamed_by_all, 4);
    assert forall|k: int| 0 <= k < 3 implies #[trigger] streamed(rules[k], lead) =~= lead by {
        assert forall|n: int| 0 <= n < lead.len() implies streamed(rules[k], lead)[n]
            == lead[n] by {
            assert(rules[k](lead.take(n + 1)) == lead.take(n + 1).last());
        }
    }
    assert(streamed(rules[0], lead) == lead);
    assert(streamed(rules[1], lead) == lead);
    assert(streamed(rules[2], lead) == lead);
    assert(rules.drop_last().drop_last().drop_last().len() == 0);
    assert(joined(shaped, ch) == lead);
    a_blend_at_rest_is_one_side(
        stage.math,
        Sample::one(),
        stage.blend.coefficient,
        joined(blocks, ch),
        lead,
        out,
        after.blend.mix,
        0,
    );
    assert(faded(
        stage.math,
        joined(blocks, 0)[0],
        joined(heard, ch)[0],
        0,
        fade.total,
        lead[0],
    ));
}

/// What stands between a channel's cuts and its level over a stream, one channel per block.
proof fn lemma_between_the_cuts(
    shaping: IrShaping,
    blocks: Seq<Seq<Seq<Sample>>>,
    outputs: Seq<Seq<Seq<Sample>>>,
    channels: nat,
    ch: int,
    after: IrShaping,
) -> (r: (Seq<Seq<Seq<Sample>>>, Seq<Seq<Seq<Sample>>>))
    requires
        1 <= channels <= 2,
        0 <= ch < channels,
        stream_of(blocks, channels),
        shaping_passes_all(shaping, blocks, outputs, after),
    ensures
        ch == 0 ==> {
            &&& runs_all(shaping.first.low_cut, blocks, ch, r.0, 0, after.first.low_cut)
            &&& runs_all(shaping.first.high_cut, r.0, 0, r.1, 0, after.first.high_cut)
            &&& runs_all(shaping.first.level, r.1, 0, outputs, ch, after.first.level)
        },
        ch == 1 ==> {
            &&& runs_all(shaping.second.low_cut, blocks, ch, r.0, 0, after.second.low_cut)
            &&& runs_all(shaping.second.high_cut, r.0, 0, r.1, 0, after.second.high_cut)
            &&& runs_all(shaping.second.level, r.1, 0, outputs, ch, after.second.level)
        },
    decreases blocks.len(),
{
    if blocks.len() == 0 {
        let none = Seq::<Seq<Seq<Sample>>>::empty();
        (none, none)
    } else {
        let between = choose|between: IrShaping|
            {
                &&& shaping_passes_all(shaping, blocks.drop_last(), outputs.drop_last(), between)
                &&& #[trigger] between.pass(blocks.last(), outputs.last(), after)
            };
        let past = lemma_between_the_cuts(
            shaping,
            blocks.drop_last(),
            outputs.drop_last(),
            channels,
            ch,
            between,
        );
        assert(blocks[blocks.len() - 1].len() == channels);
        let (before, later) = if ch == 0 {
            (between.first, after.first)
        } else {
            (between.second, after.second)
        };
        let input = blocks.last()[ch];
        let output = outputs.last()[ch];
        assert(before.pass(input, output, later));
        let (low_cut, high_cut) = choose|low_cut: Seq<Sample>, high_cut: Seq<Sample>|
            {
                &&& #[trigger] runs(before.low_cut, input, low_cut, later.low_cut)
                &&& #[trigger] runs(before.high_cut, low_cut, high_cut, later.high_cut)
                &&& runs(before.level, high_cut, output, later.level)
            };
        let r = (past.0.push(seq![low_cut]), past.1.push(seq![high_cut]));
        assert(r.0.drop_last() =~= past.0);
        assert(r.1.drop_last() =~= past.1);
        let start = if ch == 0 {
            shaping.first
        } else {
            shaping.second
        };
        lemma_runs_on(start.low_cut, before.low_cut, blocks, ch, r.0, 0, later.low_cut);
        lemma_runs_on(start.high_cut, before.high_cut, r.0, 0, r.1, 0, later.high_cut);
        lemma_runs_on(start.level, before.level, r.1, 0, outputs, ch, later.level);
        r
    }
}

/// Whether a slot's model, with the queues around it if there are any, may turn channel 0 of every
/// block into `outputs`, one channel per block, and be left as that of `after`.
pub open spec fn model_plays_all(
    slot: NamSlot,
    blocks: Seq<Seq<Seq<Sample>>>,
    outputs: Seq<Seq<Seq<Sample>>>,
    after: NamSlot,
) -> bool
    decreases blocks.len(),
{
    &&& outputs.len() == blocks.len()
    &&& if blocks.len() == 0 {
        after == slot
    } else {
        exists|between: NamSlot|
            {
                &&& model_plays_all(slot, blocks.drop_last(), outputs.drop_last(), between)
                &&& #[trigger] model_plays(between, blocks.last()[0], outputs.last()[0], after)
            }
    }
}

/// What a slot of the amp stage produces over a stream comes of what its model makes of it.
pub proof fn a_slot_plays_its_model<A: SampleMath>(
    math: A,
    slot: NamSlot,
    normalize: Normalize,
    blocks: Seq<Seq<Seq<Sample>>>,
    produced: Seq<Seq<Seq<Sample>>>,
    left: Option<Box<NamSlot>>,
)
    requires
        amp_slot_plays_all(math, Some(Box::new(slot)), normalize, blocks, produced, left),
    ensures
        left is Some,
        exists|modelled: Seq<Seq<Seq<Sample>>>| #[trigger]
            model_plays_all(slot, blocks, modelled, *left->0),
    decreases blocks.len(),
{
    if blocks.len() == 0 {
        assert(model_plays_all(slot, blocks, Seq::empty(), *left->0));
    } else {
        let between = choose|between: Option<Box<NamSlot>>|
            {
                &&& amp_slot_plays_all(
                    math,
                    Some(Box::new(slot)),
                    normalize,
                    blocks.drop_last(),
                    produced.drop_last(),
                    between,
                )
                &&& #[trigger] side_plays(
                    math,
                    between,
                    normalize,
                    blocks.last()[0],
                    produced.last()[0],
                    left,
                )
            };
        a_slot_plays_its_model(
            math,
            slot,
            normalize,
            blocks.drop_last(),
            produced.drop_last(),
            between,
        );
        let earlier = choose|modelled: Seq<Seq<Seq<Sample>>>| #[trigger]
            model_plays_all(slot, blocks.drop_last(), modelled, *between->0);
        assert(slot_plays(
            math,
            *between->0,
            normalize,
            blocks.last()[0],
            produced.last()[0],
            *left->0,
        ));
        let (modelled, target) = choose|modelled: Seq<Sample>, target: Sample|
            {
                &&& model_plays(*between->0, blocks.last()[0], modelled, *left->0)
                &&& aims(math, *between->0, normalize, target)
                &&& #[trigger] gain_plays(
                    *between->0,
                    target,
                    modelled,
                    produced.last()[0],
                    *left->0,
                )
            };
        let all = earlier.push(seq![modelled]);
        assert(all.drop_last() =~= earlier);
        assert(model_plays(*between->0, blocks.last()[0], all.last()[0], *left->0));
        assert(model_plays_all(slot, blocks, all, *left->0));
    }
}

/// A model does not hear how a stream is divided into blocks: with queues around it, they and it
/// do to the blocks what they do to the stream in one block, and without, it runs on block after
/// block, so that one that goes by a rule gives what the rule makes of the stream.
pub proof fn a_model_does_not_hear_the_division(
    slot: NamSlot,
    blocks: Seq<Seq<Seq<Sample>>>,
    outputs: Seq<Seq<Seq<Sample>>>,
    after: NamSlot,
)
    requires
        slot.wf(),
        model_plays_all(slot, blocks, outputs, after),
    ensures
        match (slot.resample, after.resample) {
            (None, None) => {
                &&& runs_all(slot.core, blocks, 0, outputs, 0, after.core)
                &&& forall|rule: spec_fn(Seq<Sample>) -> Sample| #[trigger]
                    goes_by(slot.core, rule) ==> joined(outputs, 0) == streamed(
                        rule,
                        joined(blocks, 0),
                    )
            },
            (Some(queues), Some(left)) => queues.passes_on(
                slot.core,
                joined(blocks, 0),
                joined(outputs, 0),
                left,
                after.core,
            ),
            _ => false,
        },
    decreases blocks.len(),
{
    if blocks.len() == 0 {
        if let Some(queues) = slot.resample {
            let none = Seq::<Sample>::empty();
            assert(queues.waiting() + none =~= queues.waiting());
            assert(queues.waiting().skip(0) =~= queues.waiting());
            assert(none + queues.ready() =~= queues.ready() + none);
            assert(queues.passed(slot.core, none, none, queues, slot.core, none));
        }
    } else {
        let between = choose|between: NamSlot|
            {
                &&& model_plays_all(slot, blocks.drop_last(), outputs.drop_last(), between)
                &&& #[trigger] model_plays(between, blocks.last()[0], outputs.last()[0], after)
            };
        a_model_does_not_hear_the_division(
            slot,
            blocks.drop_last(),
            outputs.drop_last(),
            between,
        );
        match (slot.resample, between.resample, after.resample) {
            (Some(start), Some(middle), Some(end)) => {
                division_into_blocks_is_invisible(
                    start,
                    middle,
                    end,
                    (slot.core, between.core, after.core),
                    (joined(blocks.drop_last(), 0), blocks.last()[0]),
                    (joined(outputs.drop_last(), 0), outputs.last()[0]),
                );
            },
            _ => {
                lemma_runs_on(slot.core, between.core, blocks, 0, outputs, 0, after.core);
            },
        }
    }
    if slot.resample is None {
        assert forall|rule: spec_fn(Seq<Sample>) -> Sample| #[trigger]
            goes_by(slot.core, rule) implies joined(outputs, 0) == streamed(
            rule,
            joined(blocks, 0),
        ) by {
            a_rule_does_not_hear_the_division(
                slot.core,
                rule,
                blocks,
                0,
                outputs,
                0,
                after.core,
            );
        }
    }
}

/// Whether the noise gate may turn the stream `blocks` into `outputs` and be left as `after`.
pub open spec fn gate_plays_all<A: SampleMath>(
    stage: GateStage<A>,
    blocks: Seq<Seq<Seq<Sample>>>,
    outputs: Seq<Seq<Seq<Sample>>>,
    after: GateStage<A>,
) -> bool
    decreases blocks.len(),
{
    &&& outputs.len() == blocks.len()
    &&& if blocks.len() == 0 {
        after == stage
    } else {
        exists|between: GateStage<A>|
            {
                &&& gate_plays_all(stage, blocks.drop_last(), outputs.drop_last(), between)
                &&& #[trigger] between.plays(blocks.last(), outputs.last(), after)
            }
    }
}

/// A noise gate whose detector goes by a rule turns every channel of a stream into one blend of
/// that channel and what the rule makes of the stream's channel 0, however the stream is divided
/// into blocks.
///
/// Of a channel that is not the last this needs a smoothing step to have only one result.
pub proof fn the_noise_gate_does_not_hear_the_division<A: SampleMath>(
    stage: GateStage<A>,
    rule: spec_fn(Seq<Sample>) -> Sample,
    blocks: Seq<Seq<Seq<Sample>>>,
    outputs: Seq<Seq<Seq<Sample>>>,
    channels: nat,
    ch: int,
    after: GateStage<A>,
)
    requires
        0 <= ch < channels,
        ch == channels - 1 || steady(stage.math),
        stream_of(blocks, channels),
        stream_of(outputs, channels),
        goes_by(stage.detector, rule),
        gate_plays_all(stage, blocks, outputs, after),
    ensures
        channel_blends(
            stage.math,
            stage.blend.mix,
            stage.blend.target,
            stage.blend.coefficient,
            joined(blocks, ch),
            streamed(rule, joined(blocks, 0)),
            joined(outputs, ch),
            after.blend.mix,
        ),
{
    let gated = lemma_gated(stage, blocks, outputs, channels, ch, after);
    a_rule_does_not_hear_the_division(
        stage.detector,
        rule,
        blocks,
        0,
        gated,
        0,
        after.detector,
    );
}

/// What the detector gives out over a stream, one channel per block.
proof fn lemma_gated<A: SampleMath>(
    stage: GateStage<A>,
    blocks: Seq<Seq<Seq<Sample>>>,
    outputs: Seq<Seq<Seq<Sample>>>,
    channels: nat,
    ch: int,
    after: GateStage<A>,
) -> (gated: Seq<Seq<Seq<Sample>>>)
    requires
        0 <= ch < channels,
        ch == channels - 1 || steady(stage.math),
        stream_of(blocks, channels),
        stream_of(outputs, channels),
        gate_plays_all(stage, blocks, outputs, after),
    ensures
        runs_all(stage.detector, blocks, 0, gated, 0, after.detector),
        after.math == stage.math,
        after.blend.target == stage.blend.target,
        after.blend.coefficient == stage.blend.coefficient,
        joined(gated, 0).len() == joined(blocks, 0).len(),
        channel_blends(
            stage.math,
            stage.blend.mix,
            stage.blend.target,
            stage.blend.coefficient,
            joined(blocks, ch),
            joined(gated, 0),
            joined(outputs, ch),
            after.blend.mix,
        ),
    decreases blocks.len(),
{
    let blend = stage.blend;
    if blocks.len() == 0 {
        assert(smooth_path(
            stage.math,
            blend.mix,
            blend.target,
            blend.coefficient,
            seq![blend.mix],
        ));
        Seq::empty()
    } else {
        let past = blocks.drop_last();
        let input = blocks.last();
        let output = outputs.last();
        let between = choose|between: GateStage<A>|
            {
                &&& gate_plays_all(stage, past, outputs.drop_last(), between)
                &&& #[trigger] between.plays(input, output, after)
            };
        let earlier = lemma_gated(stage, past, outputs.drop_last(), channels, ch, between);
        assert(blocks[blocks.len() - 1] == input && outputs[outputs.len() - 1] == output);
        assert(block_of(input, input[0].len()));
        let gated = choose|gated: Seq<Sample>|
            {
                &&& #[trigger] runs(between.detector, input[0], gated, after.detector)
                &&& block_blends(
                    stage.math,
                    between.blend,
                    input,
                    Seq::new(input.len(), |c: int| gated),
                    output,
                    after.blend.mix,
                )
            };
        channels_end_together(
            stage.math,
            between.blend,
            input,
            Seq::new(input.len(), |c: int| gated),
            output,
            after.blend.mix,
            ch,
        );
        channels_keep_pace(past, channels, ch);
        a_blend_does_not_depend_on_the_division(
            stage.math,
            blend.mix,
            between.blend.mix,
            after.blend.mix,
            blend.target,
            blend.coefficient,
            (joined(past, ch), input[ch]),
            (joined(earlier, 0), gated),
            (joined(outputs.drop_last(), ch), output[ch]),
        );
        let all = earlier.push(seq![gated]);
        assert(all.drop_last() =~= earlier);
        assert(runs(between.detector, blocks.last()[0], all.last()[0], after.detector));
        all
    }
}

} // verus!
