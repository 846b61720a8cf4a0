//! How a first load comes in, in a chain.
//!
//! A stage that has just been given its first model or response goes by a rule too, up to the block
//! that ends the fade. So a chain around it sounds the same however the stream is divided into
//! blocks, and does not differ from one with nothing loaded before the fade moves.

use vstd::prelude::*;

use crate::chain::{all_finite, limited_block, Chain};
use crate::chain_stage::ChainStage;
use crate::chain_streams::{
    a_chain_goes_by_its_rules, a_replaced_rule_is_heard_from_where_it_differs, all_joined,
    chain_processes_all, lemma_ruled_shape, rests_unbypassed, ruled, ruled_by_all, stage_goes_by,
    stage_goes_by_within, stage_plays_all, two_divisions_sound_the_same, up_to, within, StreamRule,
};
use crate::math::{
    a_smoother_that_has_arrived_stays, blend_value, exact_values, fade_value, faded,
    position_after, single_valued, SampleMath,
};
use crate::sample::Sample;
use crate::stage_io::{channels_keep_pace, joined, stream_of};
use crate::stages::bypass::{a_blend_has_one_result, channel_blends};
use crate::stages::handover::Crossfade;
use crate::stages::ir;
use crate::stages::ir::{spreads, wet_channel, IrSlot, IrStage};
use crate::stages::nam::{fade_renders, NamSlot, NamStage};
use crate::stages::resource_rules::{
    a_cabinet_stage_goes_by_its_rule, a_slot_goes_by_its_rules, amp_in_a_chain, amp_rule,
    an_amp_stage_goes_by_its_rule, an_own_signal_goes_by_the_rule, cabinet_in_a_chain,
    cabinet_rule, duplicated, lemma_streamed_prefix, on_one_signal, slot_goes_by,
};
use crate::stages::rules::{all_go_by, passes_all, rules_look_back_only};
use crate::stages::seamless::{
    shaping_goes_by, streamed, streamed_by_all, the_shaping_does_not_hear_the_division,
};
use crate::stages::streams::{
    a_first_model_fades_in_wherever_blocks_end, a_first_response_fades_in_wherever_blocks_end,
    amp_fades_in, amp_plays_all, amp_slot_plays_all, cabinet_fades_in, cabinet_plays_all,
    cabinet_slot_plays_all, shaping_passes_all,
};

verus! {

/// The rule of an amp stage from its first model on, up to the block that ends the fade.
pub open spec fn fading_amp_rule<A: SampleMath>(
    stage: NamStage<A>,
    slot: NamSlot,
    model: spec_fn(Seq<Sample>) -> Sample,
    gain: spec_fn(Seq<Sample>) -> Sample,
) -> StreamRule {
    |streams: Seq<Seq<Sample>>, c: int|
        {
            let fade = Crossfade::fresh(slot.latency(), stage.handover.length);
            blend_value(
                stage.math,
                streams[c].last(),
                fade_value(
                    stage.math,
                    streams[0].last(),
                    streamed(gain, streamed(model, streams[0])).last(),
                    fade.after(streams[0].len() - 1).progress(),
                    fade.total,
                ),
                position_after(
                    stage.math,
                    Sample::one(),
                    Sample::one(),
                    stage.blend.coefficient,
                    streams[c].len(),
                ),
            )
        }
}

/// An amp stage that has just been given its first model goes by a rule, if the slot does.
pub proof fn a_first_model_goes_by_its_rule<A: SampleMath>(
    stage: NamStage<A>,
    slot: Box<NamSlot>,
    started: Box<NamStage<A>>,
    model: spec_fn(Seq<Sample>) -> Sample,
    gain: spec_fn(Seq<Sample>) -> Sample,
    channels: nat,
)
    requires
        channels >= 1,
        single_valued(stage.math),
        stage.enabled,
        stage.handover.wf(),
        !stage.handover.sounds(),
        *started == stage.begun(Some(slot), slot.latency()),
        slot_goes_by(stage.math, *slot, stage.normalize(), model, gain),
    ensures
        stage_goes_by_within(
            ChainStage::Nam(started),
            fading_amp_rule(stage, *slot, model, gain),
            channels,
            slot.latency() + stage.handover.length,
        ),
{
    let limit = slot.latency() + stage.handover.length;
    let own = fading_amp_rule(stage, *slot, model, gain);
    let whole = ChainStage::Nam(started);
    assert forall|
        blocks: Seq<Seq<Seq<Sample>>>,
        outputs: Seq<Seq<Seq<Sample>>>,
        after: ChainStage<A>,
    |
        stream_of(blocks, channels) && stream_of(outputs, channels) && within(blocks, limit)
            && #[trigger] stage_plays_all(whole, blocks, outputs, after) implies all_joined(
        outputs,
        channels,
    ) == ruled(own, all_joined(blocks, channels)) by {
        let left = amp_in_a_chain(started, blocks, outputs, after);
        let streams = all_joined(blocks, channels);
        assert forall|c: int| 0 <= c < channels implies #[trigger] all_joined(
            outputs,
            channels,
        )[c] == ruled(own, streams)[c] by {
            lemma_fading_amp_channel(
                stage,
                slot,
                model,
                gain,
                blocks,
                outputs,
                *left,
                channels,
                c,
            );
        }
        assert(all_joined(outputs, channels) =~= ruled(own, streams));
    }
}

/// One channel of an amp stage that has just been given its first model.
proof fn lemma_fading_amp_channel<A: SampleMath>(
    stage: NamStage<A>,
    slot: Box<NamSlot>,
    model: spec_fn(Seq<Sample>) -> Sample,
    gain: spec_fn(Seq<Sample>) -> Sample,
    blocks: Seq<Seq<Seq<Sample>>>,
    outputs: Seq<Seq<Seq<Sample>>>,
    after: NamStage<A>,
    channels: nat,
    c: int,
)
    requires
        0 <= c < channels,
        single_valued(stage.math),
        stage.enabled,
        stage.handover.wf(),
        !stage.handover.sounds(),
        slot_goes_by(stage.math, *slot, stage.normalize(), model, gain),
        stream_of(blocks, channels),
        stream_of(outputs, channels),
        within(blocks, slot.latency() + stage.handover.length),
        amp_plays_all(
            stage.begun(Some(slot), slot.latency()),
            blocks,
            outputs,
            after,
        ),
    ensures
        joined(outputs, c) == ruled(
            fading_amp_rule(stage, *slot, model, gain),
            all_joined(blocks, channels),
        )[c],
{
    let math = stage.math;
    let coefficient = stage.blend.coefficient;
    let own = fading_amp_rule(stage, *slot, model, gain);
    let streams = all_joined(blocks, channels);
    let fade = Crossfade::fresh(slot.latency(), stage.handover.length);
    let lead = joined(blocks, 0);
    let dry = joined(blocks, c);
    let out = joined(outputs, c);
    let end = after.blend.mix;
    a_first_model_fades_in_wherever_blocks_end(
        stage,
        slot,
        blocks,
        outputs,
        after,
        channels,
        c,
    );
    let (produced, left) = choose|
        produced: Seq<Seq<Seq<Sample>>>,
        left: Option<Box<NamSlot>>,
    |
        {
            &&& #[trigger] amp_slot_plays_all(
                math,
                Some(slot),
                stage.normalize(),
                blocks,
                produced,
                left,
            )
            &&& amp_fades_in(
                math,
                coefficient,
                fade,
                lead,
                joined(produced, 0),
                dry,
                out,
                end,
            )
        };
    a_slot_goes_by_its_rules(
        math,
        Some(slot),
        stage.normalize(),
        model,
        gain,
        blocks,
        produced,
        left,
    );
    let heard = joined(produced, 0);
    let wet = choose|wet: Seq<Sample>|
        {
            &&& #[trigger] fade_renders(math, fade, lead, heard, wet)
            &&& channel_blends(
                math,
                Sample::one(),
                Sample::one(),
                coefficient,
                dry,
                wet,
                out,
                end,
            )
        };
    a_blend_has_one_result(
        math,
        Sample::one(),
        Sample::one(),
        coefficient,
        dry,
        wet,
        out,
        end,
    );
    channels_keep_pace(blocks, channels, c);
    assert forall|n: int| 0 <= n < out.len() implies #[trigger] out[n] == own(
        up_to(streams, n + 1),
        c,
    ) by {
        let part = up_to(streams, n + 1);
        assert(part[c] == dry.take(n + 1));
        assert(part[0] == lead.take(n + 1));
        lemma_streamed_prefix(model, lead, n + 1);
        lemma_streamed_prefix(gain, streamed(model, lead), n + 1);
        let step = fade.after(n).progress();
        assert(faded(math, lead[n], heard[n], step, fade.total, wet[n]));
        assert(faded(
            math,
            lead[n],
            heard[n],
            step,
            fade.total,
            fade_value(math, lead[n], heard[n], step, fade.total),
        ));
    }
    assert(out =~= ruled(own, streams)[c]);
}

/// Whether two chains differ in one stage alone, and their bypass is off and settled.
pub open spec fn alike_but_for<A: SampleMath>(a: Chain<A>, b: Chain<A>, k: int) -> bool {
    &&& rests_unbypassed(a)
    &&& rests_unbypassed(b)
    &&& b.output_ceiling_linear == a.output_ceiling_linear
    &&& b.stages@.len() == a.stages@.len()
    &&& 0 <= k < a.stages@.len()
    &&& forall|i: int|
        0 <= i < a.stages@.len() && i != k ==> #[trigger] b.stages@[i] == a.stages@[i]
}

/// Two chains that differ in stage `k` alone give out the same up to frame `m`, if the two stages'
/// rules make the same up to there of what the stages before them give out. Either stream may be
/// divided into blocks in its own way.
proof fn lemma_same_up_to<A: SampleMath>(
    chains: (Chain<A>, Chain<A>),
    rules: (Seq<StreamRule>, Seq<StreamRule>),
    k: int,
    blocks: (Seq<Seq<Seq<Sample>>>, Seq<Seq<Seq<Sample>>>),
    outputs: (Seq<Seq<Seq<Sample>>>, Seq<Seq<Seq<Sample>>>),
    after: (Chain<A>, Chain<A>),
    channels: nat,
    limit: int,
    frames: nat,
    m: int,
)
    requires
        channels >= 1,
        alike_but_for(chains.0, chains.1, k),
        rules.0.len() == chains.0.stages@.len(),
        rules.1.len() == rules.0.len(),
        forall|i: int|
            0 <= i < rules.0.len() && i != k ==> #[trigger] rules.0[i] == rules.1[i]
                && stage_goes_by(chains.0.stages@[i], rules.0[i], channels),
        stage_goes_by_within(chains.0.stages@[k], rules.0[k], channels, limit),
        stage_goes_by_within(chains.1.stages@[k], rules.1[k], channels, limit),
        stream_of(blocks.0, channels),
        stream_of(blocks.1, channels),
        within(blocks.0, limit),
        within(blocks.1, limit),
        all_joined(blocks.0, channels) == all_joined(blocks.1, channels),
        joined(blocks.0, 0).len() == frames,
        0 <= m <= frames,
        up_to(
            ruled(
                rules.0[k],
                ruled_by_all(rules.0.take(k), all_joined(blocks.0, channels)),
            ),
            m,
        ) == up_to(
            ruled(
                rules.1[k],
                ruled_by_all(rules.0.take(k), all_joined(blocks.0, channels)),
            ),
            m,
        ),
        all_finite(ruled_by_all(rules.0, all_joined(blocks.0, channels))),
        all_finite(ruled_by_all(rules.1, all_joined(blocks.0, channels))),
        chain_processes_all(chains.0, blocks.0, outputs.0, after.0),
        chain_processes_all(chains.1, blocks.1, outputs.1, after.1),
    ensures
        forall|c: int, n: int|
            0 <= c < channels && 0 <= n < m ==> #[trigger] joined(outputs.0, c)[n] == joined(
                outputs.1,
                c,
            )[n],
{
    let streams = all_joined(blocks.0, channels);
    assert forall|i: int| 0 <= i < rules.0.len() implies stage_goes_by_within(
        #[trigger] chains.0.stages@[i],
        rules.0[i],
        channels,
        limit,
    ) by {
        if i != k {
            assert(rules.0[i] == rules.1[i]);
        }
    }
    assert forall|i: int| 0 <= i < rules.1.len() implies stage_goes_by_within(
        #[trigger] chains.1.stages@[i],
        rules.1[i],
        channels,
        limit,
    ) by {
        if i != k {
            assert(rules.0[i] == rules.1[i]);
            assert(chains.1.stages@[i] == chains.0.stages@[i]);
        }
    }
    assert forall|c: int| 0 <= c < streams.len() implies (#[trigger] streams[c]).len()
        == frames by {
        channels_keep_pace(blocks.0, channels, c);
    }
    a_chain_goes_by_its_rules(
        chains.0,
        rules.0,
        blocks.0,
        outputs.0,
        after.0,
        channels,
        limit,
    );
    a_chain_goes_by_its_rules(
        chains.1,
        rules.1,
        blocks.1,
        outputs.1,
        after.1,
        channels,
        limit,
    );
    a_replaced_rule_is_heard_from_where_it_differs(rules.0, rules.1, streams, k, frames, m);
    let a = ruled_by_all(rules.0, streams);
    let b = ruled_by_all(rules.1, streams);
    let ceiling = chains.0.output_ceiling_linear;
    assert forall|c: int, n: int| 0 <= c < channels && 0 <= n < m implies #[trigger] joined(
        outputs.0,
        c,
    )[n] == joined(outputs.1, c)[n] by {
        assert(up_to(a, m)[c] == up_to(b, m)[c]);
        assert(a[c].len() == frames && b[c].len() == frames);
        assert(a[c].take(m)[n] == b[c].take(m)[n]);
        assert(all_joined(outputs.0, channels)[c] == limited_block(a, ceiling)[c]);
        assert(all_joined(outputs.1, channels)[c] == limited_block(b, ceiling)[c]);
    }
}

/// A chain that has been given its first model gives out the same however the stream is divided
/// into blocks, up to the block that ends the fade. So the frame on which the model is first heard
/// does not depend on the blocks.
pub proof fn a_first_model_in_a_chain_does_not_hear_the_division<A: SampleMath>(
    loaded: Chain<A>,
    k: int,
    stage: Box<NamStage<A>>,
    slot: Box<NamSlot>,
    started: Box<NamStage<A>>,
    rules: Seq<StreamRule>,
    model: spec_fn(Seq<Sample>) -> Sample,
    gain: spec_fn(Seq<Sample>) -> Sample,
    blocks: (Seq<Seq<Seq<Sample>>>, Seq<Seq<Seq<Sample>>>),
    outputs: (Seq<Seq<Seq<Sample>>>, Seq<Seq<Seq<Sample>>>),
    after: (Chain<A>, Chain<A>),
    channels: nat,
)
    requires
        channels >= 1,
        rests_unbypassed(loaded),
        0 <= k < loaded.stages@.len(),
        loaded.stages@[k] == ChainStage::Nam(started),
        *started == stage.begun(Some(slot), slot.latency()),
        stage.enabled,
        stage.handover.wf(),
        !stage.handover.sounds(),
        single_valued(stage.math),
        slot_goes_by(stage.math, *slot, stage.normalize(), model, gain),
        rules.len() == loaded.stages@.len(),
        forall|i: int|
            0 <= i < rules.len() && i != k ==> stage_goes_by(
                #[trigger] loaded.stages@[i],
                rules[i],
                channels,
            ),
        stream_of(blocks.0, channels),
        stream_of(blocks.1, channels),
        within(blocks.0, slot.latency() + stage.handover.length),
        within(blocks.1, slot.latency() + stage.handover.length),
        all_joined(blocks.0, channels) == all_joined(blocks.1, channels),
        all_finite(
            ruled_by_all(
                rules.update(k, fading_amp_rule(*stage, *slot, model, gain)),
                all_joined(blocks.0, channels),
            ),
        ),
        chain_processes_all(loaded, blocks.0, outputs.0, after.0),
        chain_processes_all(loaded, blocks.1, outputs.1, after.1),
    ensures
        all_joined(outputs.0, channels) == all_joined(outputs.1, channels),
{
    let limit = slot.latency() + stage.handover.length;
    let all = rules.update(k, fading_amp_rule(*stage, *slot, model, gain));
    a_first_model_goes_by_its_rule(*stage, slot, started, model, gain, channels);
    assert forall|i: int| 0 <= i < loaded.stages@.len() implies stage_goes_by_within(
        #[trigger] loaded.stages@[i],
        all[i],
        channels,
        limit,
    ) by {
        if i != k {
            assert(stage_goes_by(loaded.stages@[i], rules[i], channels));
        }
    }
    two_divisions_sound_the_same(loaded, all, blocks, outputs, after, channels, limit);
}

/// A chain that has been given its first model just before the first block gives out the same as
/// one that has not, sample for sample, for as long as the model's delay lasts and for one frame
/// more, however either stream is divided into blocks.
///
/// What reaches the amp stage has to be the same on all channels, as the trim leaves it, finite and
/// nowhere a negative zero; what the model makes of it has to be finite.
pub proof fn a_first_model_in_a_chain_is_silent_until_its_fade_moves<A: SampleMath>(
    chain: Chain<A>,
    loaded: Chain<A>,
    k: int,
    stage: Box<NamStage<A>>,
    slot: Box<NamSlot>,
    started: Box<NamStage<A>>,
    rules: Seq<StreamRule>,
    model: spec_fn(Seq<Sample>) -> Sample,
    gain: spec_fn(Seq<Sample>) -> Sample,
    blocks: (Seq<Seq<Seq<Sample>>>, Seq<Seq<Seq<Sample>>>),
    outputs: (Seq<Seq<Seq<Sample>>>, Seq<Seq<Seq<Sample>>>),
    after: (Chain<A>, Chain<A>),
    channels: nat,
)
    requires
        channels >= 1,
        alike_but_for(chain, loaded, k),
        chain.stages@[k] == ChainStage::Nam(stage),
        loaded.stages@[k] == ChainStage::Nam(started),
        *started == stage.begun(Some(slot), slot.latency()),
        stage.enabled,
        stage.handover.wf(),
        !stage.handover.sounds(),
        stage.handover.fade is None,
        stage.blend.mix == Sample::zero(),
        stage.blend.coefficient.finite(),
        single_valued(stage.math),
        exact_values(stage.math),
        slot_goes_by(stage.math, *slot, stage.normalize(), model, gain),
        rules.len() == chain.stages@.len(),
        forall|i: int|
            0 <= i < rules.len() && i != k ==> stage_goes_by(
                #[trigger] chain.stages@[i],
                rules[i],
                channels,
            ),
        stream_of(blocks.0, channels),
        stream_of(blocks.1, channels),
        within(blocks.0, slot.latency() + stage.handover.length),
        within(blocks.1, slot.latency() + stage.handover.length),
        all_joined(blocks.0, channels) == all_joined(blocks.1, channels),
        chain_processes_all(chain, blocks.0, outputs.0, after.0),
        chain_processes_all(loaded, blocks.1, outputs.1, after.1),
        all_finite(
            ruled_by_all(
                rules.update(k, amp_rule(*stage, model, gain)),
                all_joined(blocks.0, channels),
            ),
        ),
        all_finite(
            ruled_by_all(
                rules.update(k, fading_amp_rule(*stage, *slot, model, gain)),
                all_joined(blocks.0, channels),
            ),
        ),
        ({
            let fed = ruled_by_all(rules.take(k), all_joined(blocks.0, channels));
            &&& forall|c: int| 0 <= c < channels ==> #[trigger] fed[c] == fed[0]
            &&& forall|n: int|
                0 <= n <= slot.latency() && n < fed[0].len() ==> (#[trigger] fed[0][n]).plain()
            &&& forall|n: int|
                0 <= n <= slot.latency() && n < fed[0].len() ==> (#[trigger] streamed(
                    gain,
                    streamed(model, fed[0]),
                )[n]).finite()
        }),
    ensures
        forall|c: int, n: int|
            0 <= c < channels && 0 <= n <= slot.latency() && n < joined(blocks.0, 0).len()
                ==> #[trigger] joined(outputs.0, c)[n] == joined(outputs.1, c)[n],
{
    let streams = all_joined(blocks.0, channels);
    let frames = joined(blocks.0, 0).len();
    let m = if frames <= slot.latency() + 1 {
        frames as int
    } else {
        slot.latency() + 1
    };
    let quiet = amp_rule(*stage, model, gain);
    let fading = fading_amp_rule(*stage, *slot, model, gain);
    let base = rules.update(k, quiet);
    let other = rules.update(k, fading);
    let fed = ruled_by_all(rules.take(k), streams);
    let math = stage.math;
    let coefficient = stage.blend.coefficient;
    assert(base.take(k) =~= rules.take(k));
    assert forall|c: int| 0 <= c < streams.len() implies (#[trigger] streams[c]).len()
        == frames by {
        channels_keep_pace(blocks.0, channels, c);
    }
    lemma_ruled_shape(rules.take(k), streams, frames);
    an_amp_stage_goes_by_its_rule(stage, model, gain, channels);
    a_first_model_goes_by_its_rule(*stage, slot, started, model, gain, channels);
    assert forall|c: int| 0 <= c < channels implies #[trigger] up_to(ruled(quiet, fed), m)[c]
        == up_to(ruled(fading, fed), m)[c] by {
        assert(fed[c].len() == frames);
        assert(fed[c] == fed[0]);
        let x = ruled(quiet, fed)[c];
        let y = ruled(fading, fed)[c];
        assert forall|n: int| 0 <= n < m implies x[n] == y[n] by {
            let part = up_to(fed, n + 1);
            assert(part[c] == fed[c].take(n + 1));
            assert(part[0] == fed[0].take(n + 1));
            assert(fed[0].take(n + 1).last() == fed[0][n]);
            assert(fed[0][n].plain());
            lemma_streamed_prefix(model, fed[0], n + 1);
            lemma_streamed_prefix(gain, streamed(model, fed[0]), n + 1);
            assert(streamed(gain, streamed(model, fed[0]))[n].finite());
            a_smoother_that_has_arrived_stays(
                math,
                Sample::zero(),
                coefficient,
                (n + 1) as nat,
            );
            a_smoother_that_has_arrived_stays(math, Sample::one(), coefficient, (n + 1) as nat);
        }
        assert(x.take(m) =~= y.take(m));
    }
    assert(up_to(ruled(quiet, fed), m) =~= up_to(ruled(fading, fed), m));
    lemma_same_up_to(
        (chain, loaded),
        (base, other),
        k,
        blocks,
        outputs,
        after,
        channels,
        slot.latency() + stage.handover.length,
        frames,
        m,
    );
}

/// What the fade of a first response makes of channel `c`, up to the end of `streams`.
pub open spec fn fading_in<A: SampleMath>(
    stage: IrStage<A>,
    slot: IrSlot,
    rule: StreamRule,
    lead: Seq<Sample>,
    c: int,
) -> Seq<Sample> {
    let fade = Crossfade::fresh(0, stage.handover.length);
    let wide = slot.wet@.len();
    let heard = streamed(on_one_signal(rule, wide, wet_channel(c, wide as int)), lead);
    Seq::new(
        lead.len(),
        |n: int|
            fade_value(stage.math, lead[n], heard[n], fade.after(n).progress(), fade.total),
    )
}

/// The rule of a cabinet stage from its first response on, up to the block that ends the fade.
pub open spec fn fading_cabinet_rule<A: SampleMath>(
    stage: IrStage<A>,
    slot: IrSlot,
    rule: StreamRule,
    shaping: Seq<Seq<spec_fn(Seq<Sample>) -> Sample>>,
) -> StreamRule {
    |streams: Seq<Seq<Sample>>, c: int|
        blend_value(
            stage.math,
            streams[c].last(),
            streamed_by_all(shaping[c], fading_in(stage, slot, rule, streams[0], c)).last(),
            position_after(
                stage.math,
                Sample::one(),
                Sample::one(),
                stage.blend.coefficient,
                streams[c].len(),
            ),
        )
}

/// What a slot of the cabinet stage whose response goes by a rule sounds as.
proof fn lemma_response(
    slot: Box<IrSlot>,
    rule: StreamRule,
    blocks: Seq<Seq<Seq<Sample>>>,
    heard: Seq<Seq<Seq<Sample>>>,
    left: Option<Box<IrSlot>>,
    channels: nat,
    c: int,
)
    requires
        0 <= c < channels,
        slot.wet@.len() >= 1,
        all_go_by(slot.core, rule, slot.wet@.len()),
        cabinet_slot_plays_all(Some(slot), blocks, heard, left),
        forall|k: int| 0 <= k < heard.len() ==> (#[trigger] heard[k]).len() == channels,
    ensures
        joined(heard, c) == streamed(
            on_one_signal(
                rule,
                slot.wet@.len(),
                wet_channel(c, slot.wet@.len() as int),
            ),
            joined(blocks, 0),
        ),
{
    let wide = slot.wet@.len();
    let given = lemma_response_at_work(slot, blocks, heard, left, channels, c);
    an_own_signal_goes_by_the_rule(
        slot.core,
        rule,
        blocks,
        given,
        left->0.core,
        wide,
        wet_channel(c, wide as int),
    );
}

/// What the response of a slot gave out over a stream.
proof fn lemma_response_at_work(
    slot: Box<IrSlot>,
    blocks: Seq<Seq<Seq<Sample>>>,
    heard: Seq<Seq<Seq<Sample>>>,
    left: Option<Box<IrSlot>>,
    channels: nat,
    c: int,
) -> (given: Seq<Seq<Seq<Sample>>>)
    requires
        0 <= c < channels,
        slot.wet@.len() >= 1,
        cabinet_slot_plays_all(Some(slot), blocks, heard, left),
        forall|k: int| 0 <= k < heard.len() ==> (#[trigger] heard[k]).len() == channels,
    ensures
        left is Some,
        left->0.wet@.len() == slot.wet@.len(),
        passes_all(slot.core, duplicated(blocks, slot.wet@.len()), given, left->0.core),
        joined(heard, c) == joined(given, wet_channel(c, slot.wet@.len() as int)),
    decreases blocks.len(),
{
    let wide = slot.wet@.len();
    if blocks.len() == 0 {
        Seq::empty()
    } else {
        let (between, produced) = choose|
            between: Option<Box<IrSlot>>,
            produced: Seq<Seq<Sample>>,
        |
            {
                &&& cabinet_slot_plays_all(
                    Some(slot),
                    blocks.drop_last(),
                    heard.drop_last(),
                    between,
                )
                &&& #[trigger] ir::side_plays(between, blocks.last()[0], produced, left)
                &&& spreads(produced, heard.last())
            };
        assert forall|k: int| 0 <= k < heard.len() - 1 implies (
        #[trigger] heard.drop_last()[k]).len() == channels by {
            assert(heard[k].len() == channels);
        }
        let earlier = lemma_response_at_work(
            slot,
            blocks.drop_last(),
            heard.drop_last(),
            between,
            channels,
            c,
        );
        let given = earlier.push(produced);
        let all = duplicated(blocks, wide);
        assert(given.drop_last() =~= earlier);
        assert(all.drop_last() =~= duplicated(blocks.drop_last(), wide));
        assert(all.last() =~= Seq::new(wide, |e: int| blocks.last()[0]));
        assert(between->0.core.passes(all.last(), given.last(), left->0.core));
        assert(heard[heard.len() - 1].len() == channels);
        assert(heard.last()[c] == produced[wet_channel(c, produced.len() as int)]);
        given
    }
}

/// A cabinet stage that has just been given its first response goes by a rule, if the response, the
/// filters and the levels do.
pub proof fn a_first_response_goes_by_its_rule<A: SampleMath>(
    stage: IrStage<A>,
    slot: Box<IrSlot>,
    started: Box<IrStage<A>>,
    rule: StreamRule,
    shaping: Seq<Seq<spec_fn(Seq<Sample>) -> Sample>>,
    channels: nat,
)
    requires
        1 <= channels <= 2,
        single_valued(stage.math),
        stage.enabled,
        stage.handover.wf(),
        !stage.handover.sounds(),
        *started == stage.begun(Some(slot), 0),
        slot.wet@.len() >= 1,
        all_go_by(slot.core, rule, slot.wet@.len()),
        shaping_goes_by(stage.shaping.first, shaping[0]),
        channels > 1 ==> shaping_goes_by(stage.shaping.second, shaping[1]),
    ensures
        stage_goes_by_within(
            ChainStage::Ir(started),
            fading_cabinet_rule(stage, *slot, rule, shaping),
            channels,
            stage.handover.length as int,
        ),
{
    let limit = stage.handover.length as int;
    let own = fading_cabinet_rule(stage, *slot, rule, shaping);
    let whole = ChainStage::Ir(started);
    assert forall|
        blocks: Seq<Seq<Seq<Sample>>>,
        outputs: Seq<Seq<Seq<Sample>>>,
        after: ChainStage<A>,
    |
        stream_of(blocks, channels) && stream_of(outputs, channels) && within(blocks, limit)
            && #[trigger] stage_plays_all(whole, blocks, outputs, after) implies all_joined(
        outputs,
        channels,
    ) == ruled(own, all_joined(blocks, channels)) by {
        let left = cabinet_in_a_chain(started, blocks, outputs, after);
        let streams = all_joined(blocks, channels);
        assert forall|c: int| 0 <= c < channels implies #[trigger] all_joined(
            outputs,
            channels,
        )[c] == ruled(own, streams)[c] by {
            lemma_fading_cabinet_channel(
                stage,
                slot,
                rule,
                shaping,
                blocks,
                outputs,
                *left,
                channels,
                c,
            );
        }
        assert(all_joined(outputs, channels) =~= ruled(own, streams));
    }
}

/// One channel of a cabinet stage that has just been given its first response.
proof fn lemma_fading_cabinet_channel<A: SampleMath>(
    stage: IrStage<A>,
    slot: Box<IrSlot>,
    rule: StreamRule,
    shaping: Seq<Seq<spec_fn(Seq<Sample>) -> Sample>>,
    blocks: Seq<Seq<Seq<Sample>>>,
    outputs: Seq<Seq<Seq<Sample>>>,
    after: IrStage<A>,
    channels: nat,
    c: int,
)
    requires
        1 <= channels <= 2,
        0 <= c < channels,
        single_valued(stage.math),
        stage.enabled,
        stage.handover.wf(),
        !stage.handover.sounds(),
        slot.wet@.len() >= 1,
        all_go_by(slot.core, rule, slot.wet@.len()),
        shaping_goes_by(stage.shaping.first, shaping[0]),
        channels > 1 ==> shaping_goes_by(stage.shaping.second, shaping[1]),
        stream_of(blocks, channels),
        stream_of(outputs, channels),
        within(blocks, stage.handover.length as int),
        cabinet_plays_all(stage.begun(Some(slot), 0), blocks, outputs, after),
    ensures
        joined(outputs, c) == ruled(
            fading_cabinet_rule(stage, *slot, rule, shaping),
            all_joined(blocks, channels),
        )[c],
{
    let math = stage.math;
    let coefficient = stage.blend.coefficient;
    let own = fading_cabinet_rule(stage, *slot, rule, shaping);
    let streams = all_joined(blocks, channels);
    let fade = Crossfade::fresh(0, stage.handover.length);
    let lead = joined(blocks, 0);
    let dry = joined(blocks, c);
    let out = joined(outputs, c);
    let end = after.blend.mix;
    a_first_response_fades_in_wherever_blocks_end(
        stage,
        slot,
        blocks,
        outputs,
        after,
        channels,
        c,
    );
    let (heard, left) = choose|heard: Seq<Seq<Seq<Sample>>>, left: Option<Box<IrSlot>>|
        {
            &&& #[trigger] cabinet_slot_plays_all(Some(slot), blocks, heard, left)
            &&& cabinet_fades_in(stage, blocks, heard, out, channels, c, after)
        };
    let (wet, shaped) = choose|wet: Seq<Seq<Seq<Sample>>>, shaped: Seq<Seq<Seq<Sample>>>|
        {
            &&& stream_of(wet, channels)
            &&& forall|k: int| 0 <= k < heard.len() ==> (#[trigger] heard[k]).len() == channels
            &&& fade_renders(math, fade, lead, joined(heard, c), joined(wet, c))
            &&& #[trigger] shaping_passes_all(stage.shaping, wet, shaped, after.shaping)
            &&& channel_blends(
                math,
                Sample::one(),
                Sample::one(),
                coefficient,
                dry,
                joined(shaped, c),
                out,
                end,
            )
        };
    lemma_response(slot, rule, blocks, heard, left, channels, c);
    let wide = slot.wet@.len();
    let single = on_one_signal(rule, wide, wet_channel(c, wide as int));
    let sound = joined(heard, c);
    let mixed = fading_in(stage, *slot, rule, lead, c);
    assert forall|n: int| 0 <= n < lead.len() implies #[trigger] joined(wet, c)[n]
        == mixed[n] by {
        let step = fade.after(n).progress();
        assert(faded(math, lead[n], sound[n], step, fade.total, joined(wet, c)[n]));
        assert(faded(
            math,
            lead[n],
            sound[n],
            step,
            fade.total,
            fade_value(math, lead[n], sound[n], step, fade.total),
        ));
    }
    assert(joined(wet, c) =~= mixed);
    the_shaping_does_not_hear_the_division(
        stage.shaping,
        shaping[c],
        wet,
        shaped,
        channels,
        c,
        after.shaping,
    );
    a_blend_has_one_result(
        math,
        Sample::one(),
        Sample::one(),
        coefficient,
        dry,
        joined(shaped, c),
        out,
        end,
    );
    channels_keep_pace(blocks, channels, c);
    rules_look_back_only(shaping[c], mixed, 0);
    assert forall|n: int| 0 <= n < out.len() implies #[trigger] out[n] == own(
        up_to(streams, n + 1),
        c,
    ) by {
        let part = up_to(streams, n + 1);
        assert(part[c] == dry.take(n + 1));
        assert(part[0] == lead.take(n + 1));
        lemma_fading_in_prefix(stage, *slot, rule, lead, c, n + 1);
        rules_look_back_only(shaping[c], mixed, n + 1);
    }
    assert(out =~= ruled(own, streams)[c]);
}

/// The fade looks back only.
proof fn lemma_fading_in_prefix<A: SampleMath>(
    stage: IrStage<A>,
    slot: IrSlot,
    rule: StreamRule,
    lead: Seq<Sample>,
    c: int,
    n: int,
)
    requires
        0 <= n <= lead.len(),
    ensures
        fading_in(stage, slot, rule, lead.take(n), c) == fading_in(
            stage,
            slot,
            rule,
            lead,
            c,
        ).take(n),
{
    let wide = slot.wet@.len();
    let single = on_one_signal(rule, wide, wet_channel(c, wide as int));
    lemma_streamed_prefix(single, lead, n);
    assert forall|i: int| 0 <= i < n implies streamed(single, lead.take(n))[i] == streamed(
        single,
        lead,
    )[i] by {
        assert(streamed(single, lead).take(n)[i] == streamed(single, lead)[i]);
    }
    assert(fading_in(stage, slot, rule, lead.take(n), c) =~= fading_in(
        stage,
        slot,
        rule,
        lead,
        c,
    ).take(n));
}

/// Whether filters and level let a signal through as it is.
pub open spec fn lets_through(rules: Seq<spec_fn(Seq<Sample>) -> Sample>) -> bool {
    forall|k: int, stream: Seq<Sample>|
        0 <= k < rules.len() && stream.len() > 0 ==> #[trigger] rules[k](stream) == stream.last()
}

/// Rules that let a signal through make nothing else of it.
proof fn lemma_let_through(rules: Seq<spec_fn(Seq<Sample>) -> Sample>, stream: Seq<Sample>)
    requires
        lets_through(rules),
    ensures
        streamed_by_all(rules, stream) == stream,
    decreases rules.len(),
{
    if rules.len() > 0 {
        assert forall|k: int, s: Seq<Sample>|
            0 <= k < rules.len() - 1 && s.len() > 0 implies #[trigger] rules.drop_last()[k](s)
            == s.last() by {
            assert(rules[k](s) == s.last());
        }
        lemma_let_through(rules.drop_last(), stream);
        let last = rules.len() - 1;
        assert forall|n: int| 0 <= n < stream.len() implies #[trigger] streamed(
            rules[last],
            stream,
        )[n] == stream[n] by {
            assert(rules[last](stream.take(n + 1)) == stream.take(n + 1).last());
        }
        assert(streamed(rules.last(), stream) =~= stream);
    }
}

/// A chain that has been given its first response gives out the same however the stream is divided
/// into blocks, up to the block that ends the fade. So the frame on which the response is first
/// heard does not depend on the blocks.
pub proof fn a_first_response_in_a_chain_does_not_hear_the_division<A: SampleMath>(
    loaded: Chain<A>,
    k: int,
    stage: Box<IrStage<A>>,
    slot: Box<IrSlot>,
    started: Box<IrStage<A>>,
    rules: Seq<StreamRule>,
    rule: StreamRule,
    shaping: Seq<Seq<spec_fn(Seq<Sample>) -> Sample>>,
    blocks: (Seq<Seq<Seq<Sample>>>, Seq<Seq<Seq<Sample>>>),
    outputs: (Seq<Seq<Seq<Sample>>>, Seq<Seq<Seq<Sample>>>),
    after: (Chain<A>, Chain<A>),
    channels: nat,
)
    requires
        1 <= channels <= 2,
        rests_unbypassed(loaded),
        0 <= k < loaded.stages@.len(),
        loaded.stages@[k] == ChainStage::Ir(started),
        *started == stage.begun(Some(slot), 0),
        stage.enabled,
        stage.handover.wf(),
        !stage.handover.sounds(),
        single_valued(stage.math),
        slot.wet@.len() >= 1,
        all_go_by(slot.core, rule, slot.wet@.len()),
        shaping_goes_by(stage.shaping.first, shaping[0]),
        channels > 1 ==> shaping_goes_by(stage.shaping.second, shaping[1]),
        rules.len() == loaded.stages@.len(),
        forall|i: int|
            0 <= i < rules.len() && i != k ==> stage_goes_by(
                #[trigger] loaded.stages@[i],
                rules[i],
                channels,
            ),
        stream_of(blocks.0, channels),
        stream_of(blocks.1, channels),
        within(blocks.0, stage.handover.length as int),
        within(blocks.1, stage.handover.length as int),
        all_joined(blocks.0, channels) == all_joined(blocks.1, channels),
        all_finite(
            ruled_by_all(
                rules.update(k, fading_cabinet_rule(*stage, *slot, rule, shaping)),
                all_joined(blocks.0, channels),
            ),
        ),
        chain_processes_all(loaded, blocks.0, outputs.0, after.0),
        chain_processes_all(loaded, blocks.1, outputs.1, after.1),
    ensures
        all_joined(outputs.0, channels) == all_joined(outputs.1, channels),
{
    let limit = stage.handover.length as int;
    let all = rules.update(k, fading_cabinet_rule(*stage, *slot, rule, shaping));
    a_first_response_goes_by_its_rule(*stage, slot, started, rule, shaping, channels);
    assert forall|i: int| 0 <= i < loaded.stages@.len() implies stage_goes_by_within(
        #[trigger] loaded.stages@[i],
        all[i],
        channels,
        limit,
    ) by {
        if i != k {
            assert(stage_goes_by(loaded.stages@[i], rules[i], channels));
        }
    }
    two_divisions_sound_the_same(loaded, all, blocks, outputs, after, channels, limit);
}

/// A chain that has been given its first response just before the first block gives out the same as
/// one that has not, sample for sample, on its first frame, however either stream is divided into
/// blocks, while the cabinet's filters and levels let the signal through as it is.
///
/// What reaches the cabinet has to be the same on all channels, finite and no negative zero; what
/// the response makes of it has to be finite.
pub proof fn a_first_response_in_a_chain_is_silent_on_its_first_frame<A: SampleMath>(
    chain: Chain<A>,
    loaded: Chain<A>,
    k: int,
    stage: Box<IrStage<A>>,
    slot: Box<IrSlot>,
    started: Box<IrStage<A>>,
    rules: Seq<StreamRule>,
    rule: StreamRule,
    shaping: Seq<Seq<spec_fn(Seq<Sample>) -> Sample>>,
    blocks: (Seq<Seq<Seq<Sample>>>, Seq<Seq<Seq<Sample>>>),
    outputs: (Seq<Seq<Seq<Sample>>>, Seq<Seq<Seq<Sample>>>),
    after: (Chain<A>, Chain<A>),
    channels: nat,
)
    requires
        1 <= channels <= 2,
        alike_but_for(chain, loaded, k),
        chain.stages@[k] == ChainStage::Ir(stage),
        loaded.stages@[k] == ChainStage::Ir(started),
        *started == stage.begun(Some(slot), 0),
        stage.enabled,
        stage.handover.wf(),
        !stage.handover.sounds(),
        stage.handover.fade is None,
        stage.blend.mix == Sample::zero(),
        stage.blend.coefficient.finite(),
        single_valued(stage.math),
        exact_values(stage.math),
        slot.wet@.len() >= 1,
        all_go_by(slot.core, rule, slot.wet@.len()),
        shaping_goes_by(stage.shaping.first, shaping[0]),
        channels > 1 ==> shaping_goes_by(stage.shaping.second, shaping[1]),
        forall|c: int| 0 <= c < channels ==> lets_through(#[trigger] shaping[c]),
        rules.len() == chain.stages@.len(),
        forall|i: int|
            0 <= i < rules.len() && i != k ==> stage_goes_by(
                #[trigger] chain.stages@[i],
                rules[i],
                channels,
            ),
        stream_of(blocks.0, channels),
        stream_of(blocks.1, channels),
        within(blocks.0, stage.handover.length as int),
        within(blocks.1, stage.handover.length as int),
        all_joined(blocks.0, channels) == all_joined(blocks.1, channels),
        joined(blocks.0, 0).len() > 0,
        chain_processes_all(chain, blocks.0, outputs.0, after.0),
        chain_processes_all(loaded, blocks.1, outputs.1, after.1),
        all_finite(
            ruled_by_all(
                rules.update(k, cabinet_rule(*stage, rule, shaping)),
                all_joined(blocks.0, channels),
            ),
        ),
        all_finite(
            ruled_by_all(
                rules.update(k, fading_cabinet_rule(*stage, *slot, rule, shaping)),
                all_joined(blocks.0, channels),
            ),
        ),
        ({
            let fed = ruled_by_all(rules.take(k), all_joined(blocks.0, channels));
            let wide = slot.wet@.len();
            &&& forall|c: int| 0 <= c < channels ==> #[trigger] fed[c] == fed[0]
            &&& fed[0][0].plain()
            &&& forall|d: int|
                0 <= d < wide ==> (#[trigger] on_one_signal(rule, wide, d)(
                    fed[0].take(1),
                )).finite()
        }),
    ensures
        forall|c: int|
            0 <= c < channels ==> #[trigger] joined(outputs.0, c)[0] == joined(outputs.1, c)[0],
{
    let streams = all_joined(blocks.0, channels);
    let frames = joined(blocks.0, 0).len();
    let quiet = cabinet_rule(*stage, rule, shaping);
    let fading = fading_cabinet_rule(*stage, *slot, rule, shaping);
    let base = rules.update(k, quiet);
    let other = rules.update(k, fading);
    let fed = ruled_by_all(rules.take(k), streams);
    let math = stage.math;
    let coefficient = stage.blend.coefficient;
    let wide = slot.wet@.len();
    assert(base.take(k) =~= rules.take(k));
    assert forall|c: int| 0 <= c < streams.len() implies (#[trigger] streams[c]).len()
        == frames by {
        channels_keep_pace(blocks.0, channels, c);
    }
    lemma_ruled_shape(rules.take(k), streams, frames);
    a_cabinet_stage_goes_by_its_rule(stage, rule, shaping, channels);
    a_first_response_goes_by_its_rule(*stage, slot, started, rule, shaping, channels);
    assert forall|c: int| 0 <= c < channels implies #[trigger] up_to(ruled(quiet, fed), 1)[c]
        == up_to(ruled(fading, fed), 1)[c] by {
        assert(fed[c].len() == frames);
        assert(fed[c] == fed[0]);
        let x = ruled(quiet, fed)[c];
        let y = ruled(fading, fed)[c];
        let part = up_to(fed, 1);
        let one = fed[0].take(1);
        assert(part[c] == one);
        assert(part[0] == one);
        assert(one.last() == fed[0][0]);
        assert(lets_through(shaping[c]));
        lemma_let_through(shaping[c], one);
        lemma_let_through(shaping[c], fading_in(*stage, *slot, rule, one, c));
        let single = on_one_signal(rule, wide, wet_channel(c, wide as int));
        assert(one.take(1) =~= one);
        assert(streamed(single, one)[0] == single(one));
        assert(single(one).finite());
        a_smoother_that_has_arrived_stays(math, Sample::zero(), coefficient, 1);
        a_smoother_that_has_arrived_stays(math, Sample::one(), coefficient, 1);
        assert(x[0] == y[0]);
        assert(x.take(1) =~= y.take(1));
    }
    assert(up_to(ruled(quiet, fed), 1) =~= up_to(ruled(fading, fed), 1));
    lemma_same_up_to(
        (chain, loaded),
        (base, other),
        k,
        blocks,
        outputs,
        after,
        channels,
        stage.handover.length as int,
        frames,
        1,
    );
}

} // verus!
