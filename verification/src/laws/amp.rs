//! What the amp stage is for: a model on channel 0 that is heard on every channel, brought to a
//! common loudness, behind a switch.

use vstd::prelude::*;

use crate::laws::blend::{a_blend_is_heard_between_its_two_sides, all_heard_towards};
use crate::laws::handover::{a_block_moves_a_handover_on, a_handover_begins_beside_what_is_there};
use crate::laws::{has_played, on_at, open_if, was_cleared, was_told};
use crate::math::SampleMath;
use crate::param::ParamChange;
use crate::prepare::PrepareContext;
use crate::resource::Resource;
use crate::sample::Sample;
use crate::stage::{runs, BoxedStage, StagePrep};
use crate::stages::bypass::{block_blends, BypassBlend};
use crate::stages::handover::{Crossfade, Handover, Parked};
use crate::stages::nam::{
    aims, fade_renders, gain_plays, model_plays, side_plays, side_resets, slot_latency, slot_plays,
    NamIds, NamPrep, NamSlot, NamStage, Normalize,
};
use crate::telemetry::TelemetryEntry;

verus! {

/// No id does the work of two.
pub open spec fn distinct(ids: NamIds) -> bool {
    &&& ids.enabled != ids.normalize_enabled
    &&& ids.enabled != ids.normalize_offset_db
    &&& ids.normalize_enabled != ids.normalize_offset_db
}

/// The switch is on from one half upwards, whatever it was before. A stage that is switched on and
/// holds anything heads for what that makes; one that is switched off, or empty, heads for its dry
/// input. Nothing that it holds is touched.
pub proof fn the_switch_can_be_turned_either_way<A: SampleMath>(
    stage: NamStage<A>,
    change: ParamChange,
)
    requires
        change.id == stage.ids.enabled,
    ensures
        stage.applied(change).enabled == on_at(change.value),
        stage.applied(change).blend.target == open_if(
            on_at(change.value) && (stage.handover.active is Some || stage.handover.inactive
                is Some),
        ),
        stage.applied(change).blend.mix == stage.blend.mix,
        stage.applied(change).blend.coefficient == stage.blend.coefficient,
        stage.applied(change) == (NamStage {
            enabled: stage.applied(change).enabled,
            blend: stage.applied(change).blend,
            ..stage
        }),
{
}

/// Switching off and on again, with any blocks in between, leaves the stage switched on and headed
/// for what it holds.
pub proof fn a_stage_that_was_off_can_be_on_again<A: SampleMath>(
    stage: NamStage<A>,
    off: Sample,
    on: Sample,
    input: Seq<Seq<Sample>>,
    output: Seq<Seq<Sample>>,
    played: NamStage<A>,
)
    requires
        !on_at(off),
        on_at(on),
        stage.applied(ParamChange { id: stage.ids.enabled, value: off }).plays(
            input,
            output,
            played,
        ),
        played.handover.active is Some,
    ensures
        !played.enabled,
        played.blend.target == open_if(false),
        played.applied(ParamChange { id: stage.ids.enabled, value: on }).enabled,
        played.applied(ParamChange { id: stage.ids.enabled, value: on }).blend.target == open_if(
            true,
        ),
{
}

/// Loudness normalisation is switched and shifted by its own two parameters, which touch nothing
/// else; and any other update is ignored.
pub proof fn normalisation_is_set_by_its_own_parameters<A: SampleMath>(
    stage: NamStage<A>,
    change: ParamChange,
)
    requires
        distinct(stage.ids),
    ensures
        change.id == stage.ids.normalize_enabled ==> stage.applied(change) == (NamStage {
            normalize_enabled: on_at(change.value),
            ..stage
        }),
        change.id == stage.ids.normalize_offset_db ==> stage.applied(change) == (NamStage {
            normalize_offset_db: change.value,
            ..stage
        }),
        change.id != stage.ids.enabled && change.id != stage.ids.normalize_enabled && change.id
            != stage.ids.normalize_offset_db ==> stage.applied(change) == stage,
{
}

/// The gain a model is brought to the common loudness by: its own, shifted by the user's offset,
/// while normalisation is on; none at all while it is off.
pub open spec fn loudness_gain<A: SampleMath>(
    math: A,
    slot: NamSlot,
    on: bool,
    offset_db: Sample,
    target: Sample,
) -> bool {
    &&& on ==> call_ensures(
        A::sum,
        (&math, slot.base_normalize_gain_db, offset_db),
        target,
    )
    &&& !on ==> target.bits == 0
}

/// Whether a slot has turned a block into `output`: the model's output has passed the loudness
/// gain, which was told its target first. With queues around the model, what these hand out stands
/// for the model's output.
pub open spec fn slot_heard<A: SampleMath>(
    math: A,
    slot: NamSlot,
    on: bool,
    offset_db: Sample,
    input: Seq<Sample>,
    modelled: Seq<Sample>,
    target: Sample,
    gain: BoxedStage,
    output: Seq<Sample>,
    after: NamSlot,
) -> bool {
    &&& slot.resample is None ==> after.resample is None && has_played(
        slot.core,
        seq![input],
        seq![modelled],
        after.core,
    )
    &&& slot.resample is Some ==> after.resample is Some && slot.resample->0.passes_on(
        slot.core,
        input,
        modelled,
        after.resample->0,
        after.core,
    )
    &&& loudness_gain(math, slot, on, offset_db, target)
    &&& was_told(
        slot.normalize_gain,
        seq![ParamChange { id: slot.gain_target, value: target }],
        gain,
    )
    &&& has_played(gain, seq![modelled], seq![output], after.normalize_gain)
    &&& after.base_normalize_gain_db == slot.base_normalize_gain_db
    &&& after.gain_target == slot.gain_target
}

/// Whether a slot has turned a block into `output`, one way or another.
pub open spec fn is_heard<A: SampleMath>(
    math: A,
    slot: NamSlot,
    on: bool,
    offset_db: Sample,
    input: Seq<Sample>,
    output: Seq<Sample>,
    after: NamSlot,
) -> bool {
    exists|modelled: Seq<Sample>, target: Sample, gain: BoxedStage| #[trigger]
        slot_heard(
            math,
            slot,
            on,
            offset_db,
            input,
            modelled,
            target,
            gain,
            output,
            after,
        )
}

/// A slot is heard as its model at the common loudness.
pub proof fn a_slot_is_heard_at_the_common_loudness<A: SampleMath>(
    math: A,
    slot: NamSlot,
    normalize: Normalize,
    input: Seq<Sample>,
    output: Seq<Sample>,
    after: NamSlot,
)
    requires
        slot_plays(math, slot, normalize, input, output, after),
    ensures
        is_heard(math, slot, normalize.enabled, normalize.offset_db, input, output, after),
{
    let (modelled, target) = choose|modelled: Seq<Sample>, target: Sample|
        {
            &&& model_plays(slot, input, modelled, after)
            &&& aims(math, slot, normalize, target)
            &&& #[trigger] gain_plays(slot, target, modelled, output, after)
        };
    assert(gain_plays(slot, target, modelled, output, after));
    let gain = choose|gain: BoxedStage|
        {
            &&& #[trigger] runs(gain, modelled, output, after.normalize_gain)
            &&& slot.normalize_gain.hears(
                seq![ParamChange { id: slot.gain_target, value: target }],
                gain,
            )
        };
    assert(runs(gain, modelled, output, after.normalize_gain));
    assert(slot_heard(
        math,
        slot,
        normalize.enabled,
        normalize.offset_db,
        input,
        modelled,
        target,
        gain,
        output,
        after,
    ));
}

/// Whether one side of a handover has turned a block into `output`: a slot as its model, an empty
/// one as its input.
pub open spec fn side_heard<A: SampleMath>(
    stage: NamStage<A>,
    slot: Option<Box<NamSlot>>,
    input: Seq<Sample>,
    output: Seq<Sample>,
    after: Option<Box<NamSlot>>,
) -> bool {
    match slot {
        None => after is None && output == input,
        Some(s) => after is Some && is_heard(
            stage.math,
            *s,
            stage.normalize_enabled,
            stage.normalize_offset_db,
            input,
            output,
            *after->0,
        ),
    }
}

/// Whether the fade between two sides is heard, frame by frame, at the steps the fade has taken by
/// then.
pub open spec fn fade_heard<A: SampleMath>(
    math: A,
    fade: Crossfade,
    outgoing: Seq<Sample>,
    incoming: Seq<Sample>,
    output: Seq<Sample>,
) -> bool {
    &&& outgoing.len() == output.len()
    &&& incoming.len() == output.len()
    &&& forall|i: int|
        #![trigger output[i]]
        0 <= i < output.len() ==> call_ensures(
            A::equal_power,
            (&math, outgoing[i], incoming[i], steps_taken(fade, i), fade.total),
            output[i],
        )
}

/// How many steps of a fade have been taken `frame` frames from now.
pub open spec fn steps_taken(fade: Crossfade, frame: int) -> u32 {
    let gone = fade.total - fade.remaining;
    if frame <= fade.hold {
        gone as u32
    } else if frame - fade.hold <= fade.remaining {
        (gone + frame - fade.hold) as u32
    } else {
        fade.total
    }
}

/// What channel 0 has become before the bypass blend: the slot in service alone while no handover
/// is under way, the newcomer alone once its fade has ended, and the fade between the two as long
/// as it lasts.
pub open spec fn core_heard<A: SampleMath>(
    stage: NamStage<A>,
    input: Seq<Sample>,
    output: Seq<Sample>,
    active: Option<Box<NamSlot>>,
    inactive: Option<Box<NamSlot>>,
) -> bool {
    let fading = stage.handover.fade is Some && stage.handover.fade->0.remaining > 0;
    let waiting = stage.handover.fade is Some && stage.handover.fade->0.remaining == 0;
    &&& stage.handover.fade is None ==> inactive == stage.handover.inactive && side_heard(
        stage,
        stage.handover.active,
        input,
        output,
        active,
    )
    &&& waiting ==> active == stage.handover.active && side_heard(
        stage,
        stage.handover.inactive,
        input,
        output,
        inactive,
    )
    &&& fading ==> exists|outgoing: Seq<Sample>, incoming: Seq<Sample>|
        {
            &&& side_heard(stage, stage.handover.active, input, outgoing, active)
            &&& side_heard(stage, stage.handover.inactive, input, incoming, inactive)
            &&& #[trigger] fade_heard(
                stage.math,
                stage.handover.fade->0,
                outgoing,
                incoming,
                output,
            )
        }
}

/// Where a stage is headed while it holds these slots.
pub open spec fn heads_for(enabled: bool, active: bool, inactive: bool) -> Sample {
    open_if(enabled && (active || inactive))
}

/// A block is heard, on every channel, between that channel's own input and what the slots make of
/// channel 0; the stage heads for the latter exactly if it is switched on and holds anything once
/// the block is over. The handover moves on by the block, and no setting changes.
pub proof fn a_block_is_heard_through_the_model<A: SampleMath>(
    stage: NamStage<A>,
    input: Seq<Seq<Sample>>,
    output: Seq<Seq<Sample>>,
    after: NamStage<A>,
)
    requires
        stage.handover.wf(),
        stage.plays(input, output, after),
    ensures
        after.math == stage.math,
        after.ids == stage.ids,
        after.enabled == stage.enabled,
        after.normalize_enabled == stage.normalize_enabled,
        after.normalize_offset_db == stage.normalize_offset_db,
        after.blend.coefficient == stage.blend.coefficient,
        after.blend.target == heads_for(
            stage.enabled,
            after.handover.active is Some,
            after.handover.inactive is Some,
        ),
        exists|wet: Seq<Sample>, active: Option<Box<NamSlot>>, inactive: Option<Box<NamSlot>>|
            {
                &&& #[trigger] core_heard(stage, input[0], wet, active, inactive)
                &&& all_heard_towards(
                    stage.math,
                    BypassBlend { target: after.blend.target, ..stage.blend },
                    input,
                    wet,
                    output,
                    after.blend.mix,
                )
                &&& after.handover == stage.handover.moved_on(
                    active,
                    inactive,
                    input[0].len() as int,
                )
            },
{
    let frames = input[0].len() as int;
    let (active, inactive) = choose|
        active: Option<Box<NamSlot>>,
        inactive: Option<Box<NamSlot>>,
    |
        {
            &&& #[trigger] stage.renders(input, output, after.blend.mix, active, inactive)
            &&& after.handover == stage.handover.moved_on(active, inactive, frames)
        };
    let blend = BypassBlend { target: stage.wanted_after(frames), ..stage.blend };
    let wet = choose|wet: Seq<Sample>|
        {
            &&& #[trigger] stage.wet_plays(input[0], wet, active, inactive)
            &&& block_blends(
                stage.math,
                blend,
                input,
                Seq::new(input.len(), |ch: int| wet),
                output,
                after.blend.mix,
            )
        };
    assert(stage.wet_plays(input[0], wet, active, inactive));
    a_blend_is_heard_between_its_two_sides(
        stage.math,
        blend,
        input,
        Seq::new(input.len(), |ch: int| wet),
        output,
        after.blend.mix,
    );
    assert(Seq::new(input.len(), |ch: int| wet) =~= Seq::new(input.len(), |c: int| wet));
    lemma_core_heard(stage, input[0], wet, active, inactive);
    assert(core_heard(stage, input[0], wet, active, inactive));
    a_block_moves_a_handover_on(stage.handover, active, inactive, frames as nat);
    assert(all_heard_towards(stage.math, blend, input, wet, output, after.blend.mix));
}

/// One side of a handover.
proof fn lemma_side<A: SampleMath>(
    stage: NamStage<A>,
    slot: Option<Box<NamSlot>>,
    input: Seq<Sample>,
    output: Seq<Sample>,
    after: Option<Box<NamSlot>>,
)
    requires
        side_plays(stage.math, slot, stage.normalize(), input, output, after),
    ensures
        side_heard(stage, slot, input, output, after),
{
    if let Some(s) = slot {
        a_slot_is_heard_at_the_common_loudness(
            stage.math,
            *s,
            stage.normalize(),
            input,
            output,
            *after->0,
        );
    }
}

/// The core, with and without a fade.
proof fn lemma_core_heard<A: SampleMath>(
    stage: NamStage<A>,
    input: Seq<Sample>,
    output: Seq<Sample>,
    active: Option<Box<NamSlot>>,
    inactive: Option<Box<NamSlot>>,
)
    requires
        stage.handover.wf(),
        stage.wet_plays(input, output, active, inactive),
    ensures
        core_heard(stage, input, output, active, inactive),
{
    match stage.handover.fade {
        None => {
            lemma_side(stage, stage.handover.active, input, output, active);
        },
        Some(fade) => {
            if fade.remaining == 0 {
                lemma_side(stage, stage.handover.inactive, input, output, inactive);
            } else {
                let (outgoing, incoming) = choose|outgoing: Seq<Sample>, incoming: Seq<Sample>|
                    {
                        &&& stage.side(stage.handover.active, input, outgoing, active)
                        &&& stage.side(stage.handover.inactive, input, incoming, inactive)
                        &&& #[trigger] fade_renders(stage.math, fade, outgoing, incoming, output)
                    };
                lemma_side(stage, stage.handover.active, input, outgoing, active);
                lemma_side(stage, stage.handover.inactive, input, incoming, inactive);
                a_fade_is_heard_step_by_step(stage.math, fade, outgoing, incoming, output);
            }
        },
    }
}

/// A fade is heard step by step, from where it stands.
pub proof fn a_fade_is_heard_step_by_step<A: SampleMath>(
    math: A,
    fade: Crossfade,
    outgoing: Seq<Sample>,
    incoming: Seq<Sample>,
    output: Seq<Sample>,
)
    requires
        fade.wf(),
        fade_renders(math, fade, outgoing, incoming, output),
    ensures
        fade_heard(math, fade, outgoing, incoming, output),
{
    assert forall|i: int|
        #![trigger output[i]]
        0 <= i < output.len() implies call_ensures(
        A::equal_power,
        (&math, outgoing[i], incoming[i], steps_taken(fade, i), fade.total),
        output[i],
    ) by {
        assert(steps_taken(fade, i) == fade.after(i).progress());
    }
}

/// Loading a model begins a handover towards it, held for as long as asked, and the stage heads for
/// it if it is switched on. If nothing was in service the blend is there at once, since the
/// fade itself begins at the dry signal; otherwise it stays where it is. No setting changes.
pub proof fn a_load_begins_a_handover<A: SampleMath>(
    stage: NamStage<A>,
    incoming: Option<Box<NamSlot>>,
    hold: u32,
)
    ensures
        ({
            let after = stage.begun(incoming, hold);
            let target = open_if(
                stage.enabled && (stage.handover.active is Some || incoming is Some),
            );
            &&& after.handover.active == stage.handover.active
            &&& after.handover.inactive == incoming
            &&& after.handover.fade == Some(
                Crossfade {
                    hold,
                    remaining: stage.handover.length,
                    total: stage.handover.length,
                },
            )
            &&& stage.handover.inactive matches Some(slot) ==> after.handover.parked == Some(
                Parked { slot, ctx: stage.handover.prepared_for },
            )
            &&& stage.handover.inactive is None ==> after.handover.parked is None
            &&& after.handover.length == stage.handover.length
            &&& after.handover.prepared_for == stage.handover.prepared_for
            &&& after.blend.target == target
            &&& after.blend.mix == if stage.handover.active is None {
                target
            } else {
                stage.blend.mix
            }
            &&& after.blend.coefficient == stage.blend.coefficient
            &&& after == (NamStage { handover: after.handover, blend: after.blend, ..stage })
        }),
{
    a_handover_begins_beside_what_is_there(stage.handover, incoming, hold);
}

/// An offered model that was prepared for the stage's own context is handed over to, held for its
/// own delay; one that was prepared for another is parked and never played.
pub proof fn only_a_model_for_this_context_is_played<A: SampleMath>(
    stage: NamStage<A>,
    slot: Box<NamSlot>,
    ctx: PrepareContext,
    after: NamStage<A>,
)
    requires
        stage.accepts(Resource::of_nam(slot, ctx), after),
    ensures
        ctx == stage.handover.prepared_for ==> after.handover.inactive == Some(slot)
            && after.handover.active == stage.handover.active && after.handover.fade == Some(
            Crossfade {
                hold: slot_latency(Some(slot)),
                remaining: stage.handover.length,
                total: stage.handover.length,
            },
        ),
        ctx != stage.handover.prepared_for ==> after == (NamStage {
            handover: Handover { parked: Some(Parked { slot, ctx }), ..stage.handover },
            ..stage
        }),
{
}

/// The delay of a slot is that of its queues, and a slot without any has none. The stage is as late
/// as the slot in service, and not later for one that is still fading in.
pub proof fn the_stage_is_as_late_as_the_model_in_service<A: SampleMath>(stage: NamStage<A>)
    ensures
        stage.handover.active is None ==> stage.latency() == 0,
        stage.handover.active matches Some(slot) ==> {
            &&& slot.resample is None ==> stage.latency() == 0
            &&& slot.resample matches Some(queues) ==> stage.latency() == queues.latency()
        },
{
}

/// Whether a reset has done to one slot what it is for: the queues and what runs between them are
/// as they were at first, the loudness gain and everything else stays; a slot without queues is
/// left alone.
pub open spec fn slot_cleared(before: Option<Box<NamSlot>>, after: Option<Box<NamSlot>>) -> bool {
    &&& before is None <==> after is None
    &&& before matches Some(b) ==> {
        let a = after->0;
        &&& b.resample is None ==> a == b
        &&& b.resample matches Some(queues) ==> {
            &&& a.resample is Some
            &&& a.resample->0.block() == queues.block()
            &&& a.resample->0.latency() == queues.latency()
            &&& a.resample->0.waiting().len() == 0
            &&& a.resample->0.ready().len() == queues.block()
            &&& forall|i: int|
                0 <= i < queues.block() ==> (#[trigger] a.resample->0.ready()[i]).bits == 0
            &&& was_cleared(b.core, a.core)
            &&& a.normalize_gain == b.normalize_gain
            &&& a.base_normalize_gain_db == b.base_normalize_gain_db
            &&& a.gain_target == b.gain_target
        }
    }
}

/// A reset clears the pipelines of both slots and changes nothing else: settings, blend, fade and
/// pen stay.
pub proof fn a_reset_clears_both_pipelines<A: SampleMath>(stage: NamStage<A>, after: NamStage<A>)
    requires
        stage.resets_to(after),
    ensures
        slot_cleared(stage.handover.active, after.handover.active),
        slot_cleared(stage.handover.inactive, after.handover.inactive),
        after.handover.fade == stage.handover.fade,
        after.handover.parked == stage.handover.parked,
        after.handover.length == stage.handover.length,
        after.handover.prepared_for == stage.handover.prepared_for,
        after == (NamStage { handover: after.handover, ..stage }),
{
    lemma_side_cleared(stage.handover.active, after.handover.active);
    lemma_side_cleared(stage.handover.inactive, after.handover.inactive);
}

/// One slot.
proof fn lemma_side_cleared(before: Option<Box<NamSlot>>, after: Option<Box<NamSlot>>)
    requires
        side_resets(before, after),
    ensures
        slot_cleared(before, after),
{
}

/// A prepared stage holds nothing, has the settings it was given, and is at its dry input.
pub proof fn a_prepared_amp_stage_is_set<A: SampleMath>(
    prep: NamPrep<A>,
    ctx: PrepareContext,
    stage: NamStage<A>,
)
    requires
        prep.prepares(ctx, stage),
    ensures
        stage.enabled == prep.enabled,
        stage.normalize_enabled == prep.normalize_enabled,
        stage.normalize_offset_db == prep.normalize_offset_db,
        stage.ids == prep.ids,
        stage.handover.active is None,
        stage.handover.inactive is None,
        stage.handover.fade is None,
        stage.handover.parked is None,
        stage.handover.prepared_for == ctx,
        stage.blend.mix == open_if(false),
        stage.blend.target == open_if(false),
        call_ensures(
            A::one_pole_coefficient,
            (&prep.math, 15u32, ctx.rate()),
            stage.blend.coefficient,
        ),
{
}

/// The stage reports whether a model is in service, and whether a handover is under way.
pub proof fn the_amp_stage_reports_what_it_holds<A: SampleMath>(stage: NamStage<A>)
    ensures
        stage.readings().len() == 2,
        stage.readings()[0] == (TelemetryEntry {
            id: stage.ids.loaded,
            value: open_if(stage.handover.active is Some),
        }),
        stage.readings()[1] == (TelemetryEntry {
            id: stage.ids.handover_active,
            value: open_if(stage.handover.fade is Some),
        }),
{
}

/// Sending back what is parked frees the pen and touches nothing else.
pub proof fn sending_back_frees_the_pen_only<A: SampleMath>(stage: NamStage<A>)
    ensures
        stage.cleared().handover.parked is None,
        stage.cleared() == (NamStage {
            handover: Handover { parked: None, ..stage.handover },
            ..stage
        }),
{
}

} // verus!
