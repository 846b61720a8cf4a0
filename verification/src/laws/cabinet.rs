//! What the cabinet stage is for: a response, two cuts and a level on every channel, behind a
//! switch.

use vstd::prelude::*;

use crate::laws::amp::{a_fade_is_heard_step_by_step, fade_heard};
use crate::laws::blend::{a_blend_is_heard_between_its_two_sides, all_heard_between};
use crate::laws::filters::largest_block;
use crate::laws::handover::{a_block_moves_a_handover_on, a_handover_begins_beside_what_is_there};
use crate::laws::{has_played, on_at, open_if, was_cleared, was_told};
use crate::math::SampleMath;
use crate::param::{ParamChange, ParamId};
use crate::prepare::PrepareContext;
use crate::resource::Resource;
use crate::sample::Sample;
use crate::stage::{runs, StagePrep};
use crate::stages::bypass::{block_blends, BypassBlend};
use crate::stages::filter::{briefing, FilterKind, FilterPort, FilterQ, FilterTarget};
use crate::stages::handover::{Crossfade, Handover, Parked};
use crate::stages::ir::{
    alone_plays, channels_fade, side_plays, slot_tail, spreads, wet_channel, IrIds, IrPrep, IrSlot,
    IrStage,
};
use crate::stages::ir_filters::{IrChannel, IrFilters, IrShaping};
use crate::telemetry::TelemetryEntry;

verus! {

/// The ids of the stage: its switch, and those of the cuts and the level.
pub open spec fn all_ids(ids: IrIds) -> Seq<ParamId> {
    seq![
        ids.enabled,
        ids.level_db,
        ids.low_cut_enabled,
        ids.low_cut_freq_hz,
        ids.high_cut_enabled,
        ids.high_cut_freq_hz,
    ]
}

/// No id does the work of two.
pub open spec fn distinct(ids: IrIds) -> bool {
    forall|i: int, j: int|
        0 <= i < j < all_ids(ids).len() ==> all_ids(ids)[i] != all_ids(ids)[j]
}

/// What a cut is to become: nothing while it is switched off, and otherwise a maximally flat filter
/// at its own frequency.
pub open spec fn cut_shape(kind: FilterKind, on: bool, freq_hz: Sample) -> FilterTarget {
    if on {
        FilterTarget::Design {
            kind,
            freq_hz,
            q: FilterQ::Butterworth,
            gain_db: Sample { bits: 0 },
        }
    } else {
        FilterTarget::Identity
    }
}

/// What the low cuts are told when they are to follow these settings.
pub open spec fn low_cut_orders(
    port: FilterPort,
    filters: IrFilters,
    ramp_samples: u32,
) -> Seq<ParamChange> {
    briefing(
        port,
        cut_shape(FilterKind::HighPass, filters.low_cut_enabled, filters.low_cut_freq_hz),
        ramp_samples,
    )
}

/// What the high cuts are told when they are to follow these settings.
pub open spec fn high_cut_orders(
    port: FilterPort,
    filters: IrFilters,
    ramp_samples: u32,
) -> Seq<ParamChange> {
    briefing(
        port,
        cut_shape(FilterKind::LowPass, filters.high_cut_enabled, filters.high_cut_freq_hz),
        ramp_samples,
    )
}

/// The switch is on from one half upwards, whatever it was before. A stage that is switched on and
/// holds anything heads for what that makes; one that is switched off, or empty, heads for its dry
/// input. Cuts and level are not touched.
pub proof fn the_switch_can_be_turned_either_way<A: SampleMath>(
    stage: IrStage<A>,
    change: ParamChange,
    after: IrStage<A>,
)
    requires
        change.id == stage.ids.enabled,
        stage.applies(change, after),
    ensures
        after.enabled == on_at(change.value),
        after.blend.target == open_if(
            on_at(change.value) && (stage.handover.active is Some || stage.handover.inactive
                is Some),
        ),
        after.blend.mix == stage.blend.mix,
        after.blend.coefficient == stage.blend.coefficient,
        after == (IrStage { enabled: after.enabled, blend: after.blend, ..stage }),
{
}

/// Each setting of the low cut takes the value it is given, and the low cuts of both channels are
/// told alike what to become. Nothing else changes.
pub proof fn the_low_cut_follows_its_settings_on_both_channels<A: SampleMath>(
    stage: IrStage<A>,
    change: ParamChange,
    after: IrStage<A>,
)
    requires
        distinct(stage.ids),
        stage.applies(change, after),
        change.id == stage.ids.low_cut_enabled || change.id == stage.ids.low_cut_freq_hz,
    ensures
        change.id == stage.ids.low_cut_enabled ==> after.filters == (IrFilters {
            low_cut_enabled: on_at(change.value),
            ..stage.filters
        }),
        change.id == stage.ids.low_cut_freq_hz ==> after.filters == (IrFilters {
            low_cut_freq_hz: change.value,
            ..stage.filters
        }),
        ({
            let orders = low_cut_orders(
                stage.port,
                after.filters,
                largest_block(stage.handover.prepared_for),
            );
            &&& was_told(stage.shaping.first.low_cut, orders, after.shaping.first.low_cut)
            &&& was_told(stage.shaping.second.low_cut, orders, after.shaping.second.low_cut)
        }),
        after == (IrStage {
            filters: after.filters,
            shaping: IrShaping {
                first: IrChannel {
                    low_cut: after.shaping.first.low_cut,
                    ..stage.shaping.first
                },
                second: IrChannel {
                    low_cut: after.shaping.second.low_cut,
                    ..stage.shaping.second
                },
            },
            ..stage
        }),
{
    lemma_ids_are_apart(stage.ids);
}

/// Each setting of the high cut takes the value it is given, and the high cuts of both channels are
/// told alike what to become. Nothing else changes.
pub proof fn the_high_cut_follows_its_settings_on_both_channels<A: SampleMath>(
    stage: IrStage<A>,
    change: ParamChange,
    after: IrStage<A>,
)
    requires
        distinct(stage.ids),
        stage.applies(change, after),
        change.id == stage.ids.high_cut_enabled || change.id == stage.ids.high_cut_freq_hz,
    ensures
        change.id == stage.ids.high_cut_enabled ==> after.filters == (IrFilters {
            high_cut_enabled: on_at(change.value),
            ..stage.filters
        }),
        change.id == stage.ids.high_cut_freq_hz ==> after.filters == (IrFilters {
            high_cut_freq_hz: change.value,
            ..stage.filters
        }),
        ({
            let orders = high_cut_orders(
                stage.port,
                after.filters,
                largest_block(stage.handover.prepared_for),
            );
            &&& was_told(stage.shaping.first.high_cut, orders, after.shaping.first.high_cut)
            &&& was_told(stage.shaping.second.high_cut, orders, after.shaping.second.high_cut)
        }),
        after == (IrStage {
            filters: after.filters,
            shaping: IrShaping {
                first: IrChannel {
                    high_cut: after.shaping.first.high_cut,
                    ..stage.shaping.first
                },
                second: IrChannel {
                    high_cut: after.shaping.second.high_cut,
                    ..stage.shaping.second
                },
            },
            ..stage
        }),
{
    lemma_ids_are_apart(stage.ids);
}

/// The level takes the value it is given, and the levels of both channels are told it alike.
/// Nothing else changes.
pub proof fn the_level_follows_its_setting_on_both_channels<A: SampleMath>(
    stage: IrStage<A>,
    change: ParamChange,
    after: IrStage<A>,
)
    requires
        distinct(stage.ids),
        stage.applies(change, after),
        change.id == stage.ids.level_db,
    ensures
        after.filters == (IrFilters { level_db: change.value, ..stage.filters }),
        ({
            let orders = seq![ParamChange { id: stage.level_target, value: change.value }];
            &&& was_told(stage.shaping.first.level, orders, after.shaping.first.level)
            &&& was_told(stage.shaping.second.level, orders, after.shaping.second.level)
        }),
        after == (IrStage {
            filters: after.filters,
            shaping: IrShaping {
                first: IrChannel { level: after.shaping.first.level, ..stage.shaping.first },
                second: IrChannel { level: after.shaping.second.level, ..stage.shaping.second },
            },
            ..stage
        }),
{
    lemma_ids_are_apart(stage.ids);
}

/// An update that is for none of the six is ignored.
pub proof fn other_updates_are_ignored<A: SampleMath>(
    stage: IrStage<A>,
    change: ParamChange,
    after: IrStage<A>,
)
    requires
        stage.applies(change, after),
        !all_ids(stage.ids).contains(change.id),
    ensures
        after == stage,
{
    let all = all_ids(stage.ids);
    let ids = stage.ids;
    assert(all[0] == ids.enabled && all[1] == ids.level_db && all[2] == ids.low_cut_enabled
        && all[3] == ids.low_cut_freq_hz && all[4] == ids.high_cut_enabled && all[5]
        == ids.high_cut_freq_hz);
}

/// Distinct ids, pair by pair.
proof fn lemma_ids_are_apart(ids: IrIds)
    requires
        distinct(ids),
    ensures
        ids.enabled != ids.level_db,
        ids.enabled != ids.low_cut_enabled,
        ids.enabled != ids.low_cut_freq_hz,
        ids.enabled != ids.high_cut_enabled,
        ids.enabled != ids.high_cut_freq_hz,
        ids.level_db != ids.low_cut_enabled,
        ids.level_db != ids.low_cut_freq_hz,
        ids.level_db != ids.high_cut_enabled,
        ids.level_db != ids.high_cut_freq_hz,
        ids.low_cut_enabled != ids.low_cut_freq_hz,
        ids.low_cut_enabled != ids.high_cut_enabled,
        ids.low_cut_enabled != ids.high_cut_freq_hz,
        ids.low_cut_freq_hz != ids.high_cut_enabled,
        ids.low_cut_freq_hz != ids.high_cut_freq_hz,
        ids.high_cut_enabled != ids.high_cut_freq_hz,
{
    let all = all_ids(ids);
    assert(all[0] != all[1] && all[0] != all[2] && all[0] != all[3] && all[0] != all[4]);
    assert(all[0] != all[5] && all[1] != all[2] && all[1] != all[3] && all[1] != all[4]);
    assert(all[1] != all[5] && all[2] != all[3] && all[2] != all[4] && all[2] != all[5]);
    assert(all[3] != all[4] && all[3] != all[5] && all[4] != all[5]);
}

/// Both channels are kept alike: whatever an update tells a processor of the first channel it tells
/// the same processor of the second.
pub proof fn both_channels_are_told_alike<A: SampleMath>(
    stage: IrStage<A>,
    change: ParamChange,
    after: IrStage<A>,
)
    requires
        stage.applies(change, after),
        stage.shaping.first.low_cut.0.told() == stage.shaping.second.low_cut.0.told(),
        stage.shaping.first.high_cut.0.told() == stage.shaping.second.high_cut.0.told(),
        stage.shaping.first.level.0.told() == stage.shaping.second.level.0.told(),
    ensures
        after.shaping.first.low_cut.0.told() == after.shaping.second.low_cut.0.told(),
        after.shaping.first.high_cut.0.told() == after.shaping.second.high_cut.0.told(),
        after.shaping.first.level.0.told() == after.shaping.second.level.0.told(),
{
}

/// Whether one channel's signal has passed its low cut, its high cut and its level, in this order,
/// each of them once.
pub open spec fn has_passed(
    channel: IrChannel,
    input: Seq<Sample>,
    low_cut: Seq<Sample>,
    high_cut: Seq<Sample>,
    output: Seq<Sample>,
    after: IrChannel,
) -> bool {
    &&& has_played(channel.low_cut, seq![input], seq![low_cut], after.low_cut)
    &&& has_played(channel.high_cut, seq![low_cut], seq![high_cut], after.high_cut)
    &&& has_played(channel.level, seq![high_cut], seq![output], after.level)
}

/// Whether one channel's signal has been shaped, one way or another.
pub open spec fn is_shaped(
    channel: IrChannel,
    input: Seq<Sample>,
    output: Seq<Sample>,
    after: IrChannel,
) -> bool {
    exists|low_cut: Seq<Sample>, high_cut: Seq<Sample>| #[trigger]
        has_passed(channel, input, low_cut, high_cut, output, after)
}

/// Each channel passes its own cuts and level, and those of a channel that is not there are left
/// alone.
pub proof fn each_channel_is_shaped_by_its_own(
    shaping: IrShaping,
    input: Seq<Seq<Sample>>,
    output: Seq<Seq<Sample>>,
    after: IrShaping,
)
    requires
        shaping.pass(input, output, after),
    ensures
        output.len() == input.len(),
        is_shaped(shaping.first, input[0], output[0], after.first),
        input.len() > 1 ==> is_shaped(shaping.second, input[1], output[1], after.second),
        input.len() <= 1 ==> after.second == shaping.second,
{
    lemma_shaped(shaping.first, input[0], output[0], after.first);
    if input.len() > 1 {
        lemma_shaped(shaping.second, input[1], output[1], after.second);
    }
}

/// One channel.
proof fn lemma_shaped(
    channel: IrChannel,
    input: Seq<Sample>,
    output: Seq<Sample>,
    after: IrChannel,
)
    requires
        channel.pass(input, output, after),
    ensures
        is_shaped(channel, input, output, after),
{
    let (low_cut, high_cut) = choose|low_cut: Seq<Sample>, high_cut: Seq<Sample>|
        {
            &&& #[trigger] runs(channel.low_cut, input, low_cut, after.low_cut)
            &&& #[trigger] runs(channel.high_cut, low_cut, high_cut, after.high_cut)
            &&& runs(channel.level, high_cut, output, after.level)
        };
    assert(has_passed(channel, input, low_cut, high_cut, output, after));
}

/// Whether a response has been given channel 0 on each of its own channels and has made `produced`
/// of it.
pub open spec fn has_convolved(
    slot: IrSlot,
    input: Seq<Sample>,
    produced: Seq<Seq<Sample>>,
    after: IrSlot,
) -> bool {
    &&& produced.len() == slot.wet@.len()
    &&& after.wet@ == produced
    &&& exists|fed: Seq<Seq<Sample>>|
        {
            &&& fed.len() == slot.wet@.len()
            &&& forall|c: int| 0 <= c < fed.len() ==> #[trigger] fed[c] == input
            &&& #[trigger] has_played(slot.core, fed, produced, after.core)
        }
}

/// A response is given channel 0 on each of its own channels.
pub proof fn a_response_is_fed_channel_zero(
    slot: IrSlot,
    input: Seq<Sample>,
    produced: Seq<Seq<Sample>>,
    after: IrSlot,
)
    requires
        slot.plays(input, produced, after),
    ensures
        has_convolved(slot, input, produced, after),
        produced.len() == slot.wet@.len(),
{
    let fed = Seq::new(slot.wet@.len(), |ch: int| input);
    assert(has_played(slot.core, fed, produced, after.core));
}

/// A response of one channel is heard on every channel; one of two is heard on the channel it
/// belongs to.
pub proof fn a_channel_hears_its_own_part_of_a_response(ch: int, produced_channels: int)
    requires
        0 <= ch,
        1 <= produced_channels,
    ensures
        produced_channels == 1 ==> wet_channel(ch, produced_channels) == 0,
        ch < produced_channels ==> wet_channel(ch, produced_channels) == ch,
        0 <= wet_channel(ch, produced_channels) < produced_channels,
        ch >= produced_channels ==> wet_channel(ch, produced_channels) == produced_channels - 1,
{
}

/// The part of `produced` that channel `ch` hears: its own, or the last there is.
pub open spec fn own_part(produced: Seq<Seq<Sample>>, ch: int) -> Seq<Sample> {
    if ch < produced.len() {
        produced[ch]
    } else {
        produced[produced.len() - 1]
    }
}

/// Whether a slot has been heard on its own: an empty one leaves every channel as it is, a response
/// is heard on every channel.
pub open spec fn alone_heard(
    slot: Option<Box<IrSlot>>,
    input: Seq<Seq<Sample>>,
    output: Seq<Seq<Sample>>,
    after: Option<Box<IrSlot>>,
) -> bool {
    match slot {
        None => after is None && output == input,
        Some(s) => after is Some && exists|produced: Seq<Seq<Sample>>|
            {
                &&& #[trigger] has_convolved(*s, input[0], produced, *after->0)
                &&& forall|ch: int|
                    0 <= ch < output.len() ==> #[trigger] output[ch] == own_part(produced, ch)
            },
    }
}

/// Whether one side of a fade has been heard: an empty one as channel 0, a response as what it
/// makes of channel 0.
pub open spec fn side_heard(
    slot: Option<Box<IrSlot>>,
    input: Seq<Sample>,
    produced: Seq<Seq<Sample>>,
    after: Option<Box<IrSlot>>,
) -> bool {
    match slot {
        None => after is None && produced.len() == 1 && produced[0] == input,
        Some(s) => after is Some && has_convolved(*s, input, produced, *after->0),
    }
}

/// Whether the fade between two sides is heard on every channel.
pub open spec fn channels_heard<A: SampleMath>(
    math: A,
    fade: Crossfade,
    outgoing: Seq<Seq<Sample>>,
    incoming: Seq<Seq<Sample>>,
    output: Seq<Seq<Sample>>,
) -> bool {
    forall|ch: int|
        0 <= ch < output.len() ==> fade_heard(
            math,
            fade,
            own_part(outgoing, ch),
            own_part(incoming, ch),
            #[trigger] output[ch],
        )
}

/// What the block has become before the cuts: the slot in service alone while no handover is under
/// way, the newcomer alone once its fade has ended, and the fade between the two as long as it
/// lasts.
pub open spec fn slots_heard<A: SampleMath>(
    stage: IrStage<A>,
    input: Seq<Seq<Sample>>,
    output: Seq<Seq<Sample>>,
    active: Option<Box<IrSlot>>,
    inactive: Option<Box<IrSlot>>,
) -> bool {
    let fading = stage.handover.fade is Some && stage.handover.fade->0.remaining > 0;
    let waiting = stage.handover.fade is Some && stage.handover.fade->0.remaining == 0;
    &&& stage.handover.fade is None ==> inactive == stage.handover.inactive && alone_heard(
        stage.handover.active,
        input,
        output,
        active,
    )
    &&& waiting ==> active == stage.handover.active && alone_heard(
        stage.handover.inactive,
        input,
        output,
        inactive,
    )
    &&& fading ==> exists|outgoing: Seq<Seq<Sample>>, incoming: Seq<Seq<Sample>>|
        {
            &&& side_heard(stage.handover.active, input[0], outgoing, active)
            &&& side_heard(stage.handover.inactive, input[0], incoming, inactive)
            &&& #[trigger] channels_heard(
                stage.math,
                stage.handover.fade->0,
                outgoing,
                incoming,
                output,
            )
        }
}

/// A slot on its own.
proof fn lemma_alone(
    slot: Option<Box<IrSlot>>,
    input: Seq<Seq<Sample>>,
    output: Seq<Seq<Sample>>,
    after: Option<Box<IrSlot>>,
)
    requires
        alone_plays(slot, input, output, after),
    ensures
        alone_heard(slot, input, output, after),
{
    if let Some(s) = slot {
        let left = after->0;
        let produced = choose|produced: Seq<Seq<Sample>>|
            s.plays(input[0], produced, *left) && #[trigger] spreads(produced, output);
        assert(spreads(produced, output));
        a_response_is_fed_channel_zero(*s, input[0], produced, *left);
        assert(has_convolved(*s, input[0], produced, *left));
    }
}

/// One side of a fade.
proof fn lemma_side(
    slot: Option<Box<IrSlot>>,
    input: Seq<Sample>,
    produced: Seq<Seq<Sample>>,
    after: Option<Box<IrSlot>>,
)
    requires
        side_plays(slot, input, produced, after),
    ensures
        side_heard(slot, input, produced, after),
{
    if let Some(s) = slot {
        a_response_is_fed_channel_zero(*s, input, produced, *after->0);
    }
}

/// The slots, with and without a fade.
proof fn lemma_slots_heard<A: SampleMath>(
    stage: IrStage<A>,
    input: Seq<Seq<Sample>>,
    output: Seq<Seq<Sample>>,
    active: Option<Box<IrSlot>>,
    inactive: Option<Box<IrSlot>>,
)
    requires
        stage.handover.wf(),
        stage.wet_plays(input, output, active, inactive),
    ensures
        slots_heard(stage, input, output, active, inactive),
{
    match stage.handover.fade {
        None => {
            lemma_alone(stage.handover.active, input, output, active);
        },
        Some(fade) => {
            if fade.remaining == 0 {
                lemma_alone(stage.handover.inactive, input, output, inactive);
            } else {
                let (outgoing, incoming) = choose|
                    outgoing: Seq<Seq<Sample>>,
                    incoming: Seq<Seq<Sample>>,
                |
                    {
                        &&& side_plays(stage.handover.active, input[0], outgoing, active)
                        &&& side_plays(stage.handover.inactive, input[0], incoming, inactive)
                        &&& #[trigger] channels_fade(
                            stage.math,
                            fade,
                            outgoing,
                            incoming,
                            output,
                        )
                    };
                lemma_side(stage.handover.active, input[0], outgoing, active);
                lemma_side(stage.handover.inactive, input[0], incoming, inactive);
                assert forall|ch: int| 0 <= ch < output.len() implies fade_heard(
                    stage.math,
                    fade,
                    own_part(outgoing, ch),
                    own_part(incoming, ch),
                    #[trigger] output[ch],
                ) by {
                    a_fade_is_heard_step_by_step(
                        stage.math,
                        fade,
                        own_part(outgoing, ch),
                        own_part(incoming, ch),
                        output[ch],
                    );
                }
                assert(channels_heard(stage.math, fade, outgoing, incoming, output));
            }
        },
    }
}

/// A block is heard, on every channel, between that channel's own input and what the slots, the
/// cuts and the level make of it; the stage heads for the latter exactly if it is switched on and
/// holds anything once the block is over. The handover moves on by the block, and no setting
/// changes.
pub proof fn a_block_is_heard_through_the_response<A: SampleMath>(
    stage: IrStage<A>,
    input: Seq<Seq<Sample>>,
    output: Seq<Seq<Sample>>,
    after: IrStage<A>,
)
    requires
        stage.handover.wf(),
        stage.plays(input, output, after),
    ensures
        after.math == stage.math,
        after.ids == stage.ids,
        after.enabled == stage.enabled,
        after.filters == stage.filters,
        after.port == stage.port,
        after.level_target == stage.level_target,
        after.blend.coefficient == stage.blend.coefficient,
        after.blend.target == open_if(
            stage.enabled && (after.handover.active is Some || after.handover.inactive is Some),
        ),
        exists|
            wet: Seq<Seq<Sample>>,
            shaped: Seq<Seq<Sample>>,
            active: Option<Box<IrSlot>>,
            inactive: Option<Box<IrSlot>>,
        |
            {
                &&& #[trigger] slots_heard(stage, input, wet, active, inactive)
                &&& #[trigger] all_heard_between(
                    stage.math,
                    BypassBlend { target: after.blend.target, ..stage.blend },
                    input,
                    shaped,
                    output,
                    after.blend.mix,
                )
                &&& is_shaped(stage.shaping.first, wet[0], shaped[0], after.shaping.first)
                &&& wet.len() > 1 ==> is_shaped(
                    stage.shaping.second,
                    wet[1],
                    shaped[1],
                    after.shaping.second,
                )
                &&& wet.len() <= 1 ==> after.shaping.second == stage.shaping.second
                &&& after.handover == stage.handover.moved_on(
                    active,
                    inactive,
                    input[0].len() as int,
                )
            },
{
    let frames = input[0].len() as int;
    let (active, inactive) = choose|active: Option<Box<IrSlot>>, inactive: Option<Box<IrSlot>>|
        {
            &&& #[trigger] stage.renders(
                input,
                output,
                after.blend.mix,
                active,
                inactive,
                after.shaping,
            )
            &&& after.handover == stage.handover.moved_on(active, inactive, frames)
        };
    let blend = BypassBlend { target: stage.wanted_after(frames), ..stage.blend };
    let (wet, shaped) = choose|wet: Seq<Seq<Sample>>, shaped: Seq<Seq<Sample>>|
        {
            &&& stage.wet_plays(input, wet, active, inactive)
            &&& #[trigger] stage.shaping.pass(wet, shaped, after.shaping)
            &&& block_blends(stage.math, blend, input, shaped, output, after.blend.mix)
        };
    assert(stage.shaping.pass(wet, shaped, after.shaping));
    each_channel_is_shaped_by_its_own(stage.shaping, wet, shaped, after.shaping);
    a_blend_is_heard_between_its_two_sides(
        stage.math,
        blend,
        input,
        shaped,
        output,
        after.blend.mix,
    );
    lemma_slots_heard(stage, input, wet, active, inactive);
    a_block_moves_a_handover_on(stage.handover, active, inactive, frames as nat);
    assert(slots_heard(stage, input, wet, active, inactive));
    assert(blend == BypassBlend { target: after.blend.target, ..stage.blend });
}

/// A reset clears the cuts of both channels. The levels, the settings, what is loaded and the blend
/// stay.
pub proof fn a_reset_clears_the_cuts_only<A: SampleMath>(stage: IrStage<A>, after: IrStage<A>)
    requires
        stage.resets_to(after),
    ensures
        was_cleared(stage.shaping.first.low_cut, after.shaping.first.low_cut),
        was_cleared(stage.shaping.first.high_cut, after.shaping.first.high_cut),
        was_cleared(stage.shaping.second.low_cut, after.shaping.second.low_cut),
        was_cleared(stage.shaping.second.high_cut, after.shaping.second.high_cut),
        after.shaping.first.level == stage.shaping.first.level,
        after.shaping.second.level == stage.shaping.second.level,
        after == (IrStage { shaping: after.shaping, ..stage }),
{
}

/// A prepared stage holds nothing, has the settings it was given, is at its dry input, and the cuts
/// and levels of both channels have been told to jump to what the settings call for.
pub proof fn a_prepared_cabinet_is_set<A: SampleMath>(
    prep: IrPrep<A>,
    ctx: PrepareContext,
    stage: IrStage<A>,
)
    requires
        prep.prepares(ctx, stage),
    ensures
        stage.enabled == prep.enabled,
        stage.filters == prep.filters,
        stage.port == prep.port,
        stage.level_target == prep.level_target,
        stage.ids == prep.ids,
        stage.handover.active is None,
        stage.handover.inactive is None,
        stage.handover.fade is None,
        stage.handover.parked is None,
        stage.handover.prepared_for == ctx,
        stage.blend.mix == open_if(false),
        stage.blend.target == open_if(false),
        call_ensures(
            A::one_pole_coefficient,
            (&prep.math, 15u32, ctx.rate()),
            stage.blend.coefficient,
        ),
        ({
            let low = low_cut_orders(prep.port, prep.filters, 0);
            let high = high_cut_orders(prep.port, prep.filters, 0);
            let level = seq![ParamChange { id: prep.level_target, value: prep.filters.level_db }];
            &&& was_told(prep.shaping.first.low_cut, low, stage.shaping.first.low_cut)
            &&& was_told(prep.shaping.second.low_cut, low, stage.shaping.second.low_cut)
            &&& was_told(prep.shaping.first.high_cut, high, stage.shaping.first.high_cut)
            &&& was_told(prep.shaping.second.high_cut, high, stage.shaping.second.high_cut)
            &&& was_told(prep.shaping.first.level, level, stage.shaping.first.level)
            &&& was_told(prep.shaping.second.level, level, stage.shaping.second.level)
        }),
{
}

/// Loading a response begins a handover towards it, and the stage heads for it if it is switched
/// on. If nothing was in service the blend is there at once, since the fade itself begins at the
/// dry signal; otherwise it stays where it is. No setting changes.
pub proof fn a_load_begins_a_handover<A: SampleMath>(
    stage: IrStage<A>,
    incoming: Option<Box<IrSlot>>,
    hold: u32,
)
    ensures
        ({
            let after = stage.begun(incoming, hold);
            let target = open_if(
                stage.enabled && (stage.handover.active is Some || incoming is Some),
            );
            &&& after.handover.active == stage.handover.active
            &&& after.handover.inactive == incoming
            &&& after.handover.fade == Some(
                Crossfade {
                    hold,
                    remaining: stage.handover.length,
                    total: stage.handover.length,
                },
            )
            &&& stage.handover.inactive matches Some(slot) ==> after.handover.parked == Some(
                Parked { slot, ctx: stage.handover.prepared_for },
            )
            &&& stage.handover.inactive is None ==> after.handover.parked is None
            &&& after.handover.length == stage.handover.length
            &&& after.handover.prepared_for == stage.handover.prepared_for
            &&& after.blend.target == target
            &&& after.blend.mix == if stage.handover.active is None {
                target
            } else {
                stage.blend.mix
            }
            &&& after.blend.coefficient == stage.blend.coefficient
            &&& after == (IrStage { handover: after.handover, blend: after.blend, ..stage })
        }),
{
    a_handover_begins_beside_what_is_there(stage.handover, incoming, hold);
}

/// An offered response that was prepared for the stage's own context is handed over to at once; one
/// that was prepared for another is parked and never played.
pub proof fn only_a_response_for_this_context_is_played<A: SampleMath>(
    stage: IrStage<A>,
    slot: Box<IrSlot>,
    ctx: PrepareContext,
    after: IrStage<A>,
)
    requires
        stage.accepts(Resource::of_ir(slot, ctx), after),
    ensures
        ctx == stage.handover.prepared_for ==> after.handover.inactive == Some(slot)
            && after.handover.active == stage.handover.active && after.handover.fade == Some(
            Crossfade {
                hold: 0,
                remaining: stage.handover.length,
                total: stage.handover.length,
            },
        ),
        ctx != stage.handover.prepared_for ==> after == (IrStage {
            handover: Handover { parked: Some(Parked { slot, ctx }), ..stage.handover },
            ..stage
        }),
{
}

/// The stage goes on sounding for as long as the response in service does.
pub proof fn the_tail_is_that_of_the_response_in_service<A: SampleMath>(stage: IrStage<A>)
    ensures
        stage.handover.active is None ==> stage.tail() == 0,
        stage.handover.active matches Some(slot) ==> stage.tail() == slot.core.0.tail(),
        slot_tail(stage.handover.active) == stage.tail(),
{
}

/// The stage reports whether a response is in service, and whether a handover is under way.
pub proof fn the_cabinet_reports_what_it_holds<A: SampleMath>(stage: IrStage<A>)
    ensures
        stage.readings().len() == 2,
        stage.readings()[0] == (TelemetryEntry {
            id: stage.ids.loaded,
            value: open_if(stage.handover.active is Some),
        }),
        stage.readings()[1] == (TelemetryEntry {
            id: stage.ids.handover_active,
            value: open_if(stage.handover.fade is Some),
        }),
{
}

/// Sending back what is parked frees the pen and touches nothing else.
pub proof fn sending_back_frees_the_pen_only<A: SampleMath>(stage: IrStage<A>)
    ensures
        stage.cleared().handover.parked is None,
        stage.cleared() == (IrStage {
            handover: Handover { parked: None, ..stage.handover },
            ..stage
        }),
{
}

} // verus!
