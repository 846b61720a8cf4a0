//! What the noise gate is for: a detector with four settings that is heard on every channel, behind
//! a switch.

use vstd::prelude::*;

use crate::laws::blend::{a_blend_is_heard_between_its_two_sides, all_heard_towards};
use crate::laws::{has_played, on_at, open_if, was_cleared, was_told};
use crate::math::SampleMath;
use crate::param::ParamChange;
use crate::prepare::PrepareContext;
use crate::sample::Sample;
use crate::stage::{runs, StagePrep};
use crate::stages::bypass::block_blends;
use crate::stages::gate::{GateIds, GateParams, GatePrep, GateStage};

verus! {

/// No id does the work of two.
pub open spec fn distinct(ids: GateIds) -> bool {
    let all = seq![ids.enabled, ids.threshold_db, ids.attack_ms, ids.hold_ms, ids.release_ms];
    forall|i: int, j: int| 0 <= i < j < all.len() ==> all[i] != all[j]
}

/// Each of the four settings takes the value it is given and leaves the other three alone, and the
/// detector hears of it. Nothing else about the stage changes.
pub proof fn every_setting_of_the_detector_is_taken_over<A: SampleMath>(
    stage: GateStage<A>,
    change: ParamChange,
    after: GateStage<A>,
)
    requires
        distinct(stage.ids),
        stage.applies(change, after),
        change.id == stage.ids.threshold_db || change.id == stage.ids.attack_ms || change.id
            == stage.ids.hold_ms || change.id == stage.ids.release_ms,
    ensures
        after.params.threshold_db == if change.id == stage.ids.threshold_db {
            change.value
        } else {
            stage.params.threshold_db
        },
        after.params.attack_ms == if change.id == stage.ids.attack_ms {
            change.value
        } else {
            stage.params.attack_ms
        },
        after.params.hold_ms == if change.id == stage.ids.hold_ms {
            change.value
        } else {
            stage.params.hold_ms
        },
        after.params.release_ms == if change.id == stage.ids.release_ms {
            change.value
        } else {
            stage.params.release_ms
        },
        was_told(stage.detector, seq![change], after.detector),
        after == (GateStage { params: after.params, detector: after.detector, ..stage }),
{
    let ids = stage.ids;
    let all = seq![ids.enabled, ids.threshold_db, ids.attack_ms, ids.hold_ms, ids.release_ms];
    assert(all[0] != all[1] && all[0] != all[2] && all[0] != all[3] && all[0] != all[4]);
    assert(all[1] != all[2] && all[1] != all[3] && all[1] != all[4]);
    assert(all[2] != all[3] && all[2] != all[4] && all[3] != all[4]);
}

/// What the detector's own record of its settings says of an update is the same: it was one of
/// its own exactly if it has one of the four ids.
pub proof fn the_record_of_the_settings_follows(
    params: GateParams,
    ids: GateIds,
    change: ParamChange,
)
    requires
        distinct(ids),
    ensures
        GateParams::own(ids, change.id) <==> change.id == ids.threshold_db || change.id
            == ids.attack_ms || change.id == ids.hold_ms || change.id == ids.release_ms,
        params.changed(ids, ParamChange { id: ids.threshold_db, ..change }) == (GateParams {
            threshold_db: change.value,
            ..params
        }),
        params.changed(ids, ParamChange { id: ids.attack_ms, ..change }) == (GateParams {
            attack_ms: change.value,
            ..params
        }),
        params.changed(ids, ParamChange { id: ids.hold_ms, ..change }) == (GateParams {
            hold_ms: change.value,
            ..params
        }),
        params.changed(ids, ParamChange { id: ids.release_ms, ..change }) == (GateParams {
            release_ms: change.value,
            ..params
        }),
{
    let all = seq![ids.enabled, ids.threshold_db, ids.attack_ms, ids.hold_ms, ids.release_ms];
    assert(all[1] != all[2] && all[1] != all[3] && all[1] != all[4]);
    assert(all[2] != all[3] && all[2] != all[4] && all[3] != all[4]);
}

/// The switch is on from one half upwards, whatever it was before, and the blend heads for where
/// it says: for the gated signal if it is on, for the dry one if not. It touches no setting of the
/// detector, and the blend moves there from where it stands.
pub proof fn the_switch_can_be_turned_either_way<A: SampleMath>(
    stage: GateStage<A>,
    change: ParamChange,
    after: GateStage<A>,
)
    requires
        change.id == stage.ids.enabled,
        stage.applies(change, after),
    ensures
        after.enabled == on_at(change.value),
        after.blend.target == open_if(on_at(change.value)),
        after.blend.mix == stage.blend.mix,
        after.blend.coefficient == stage.blend.coefficient,
        after == (GateStage { enabled: after.enabled, blend: after.blend, ..stage }),
{
}

/// An update that is for none of the five is ignored.
pub proof fn other_updates_are_ignored<A: SampleMath>(
    stage: GateStage<A>,
    change: ParamChange,
    after: GateStage<A>,
)
    requires
        stage.applies(change, after),
        change.id != stage.ids.enabled,
        change.id != stage.ids.threshold_db,
        change.id != stage.ids.attack_ms,
        change.id != stage.ids.hold_ms,
        change.id != stage.ids.release_ms,
    ensures
        after == stage,
{
}

/// The detector is given channel 0 and nothing else, and every channel is heard between its own
/// input and what the detector made of channel 0.
pub proof fn channel_zero_is_gated_for_all<A: SampleMath>(
    stage: GateStage<A>,
    input: Seq<Seq<Sample>>,
    output: Seq<Seq<Sample>>,
    after: GateStage<A>,
)
    requires
        stage.plays(input, output, after),
    ensures
        after.enabled == stage.enabled,
        after.params == stage.params,
        after.ids == stage.ids,
        after.math == stage.math,
        after.prepared_for == stage.prepared_for,
        after.blend.target == stage.blend.target,
        after.blend.coefficient == stage.blend.coefficient,
        exists|gated: Seq<Sample>|
            {
                &&& has_played(stage.detector, seq![input[0]], seq![gated], after.detector)
                &&& #[trigger] all_heard_towards(
                    stage.math,
                    stage.blend,
                    input,
                    gated,
                    output,
                    after.blend.mix,
                )
            },
{
    let gated = choose|gated: Seq<Sample>|
        {
            &&& #[trigger] runs(stage.detector, input[0], gated, after.detector)
            &&& block_blends(
                stage.math,
                stage.blend,
                input,
                Seq::new(input.len(), |ch: int| gated),
                output,
                after.blend.mix,
            )
        };
    a_blend_is_heard_between_its_two_sides(
        stage.math,
        stage.blend,
        input,
        Seq::new(input.len(), |ch: int| gated),
        output,
        after.blend.mix,
    );
    assert(Seq::new(input.len(), |ch: int| gated) =~= Seq::new(input.len(), |c: int| gated));
    assert(all_heard_towards(
        stage.math,
        stage.blend,
        input,
        gated,
        output,
        after.blend.mix,
    ));
    assert(has_played(stage.detector, seq![input[0]], seq![gated], after.detector));
}

/// A reset clears the detector and leaves the settings, the switch and the blend as they are.
pub proof fn a_reset_clears_the_detector_only<A: SampleMath>(
    stage: GateStage<A>,
    after: GateStage<A>,
)
    requires
        stage.resets_to(after),
    ensures
        was_cleared(stage.detector, after.detector),
        after == (GateStage { detector: after.detector, ..stage }),
{
}

/// A prepared stage stands where its switch says, has the settings it was given, and its detector
/// has been told all four of them, each under its own id.
pub proof fn a_prepared_noise_gate_is_set<A: SampleMath>(
    prep: GatePrep<A>,
    ctx: PrepareContext,
    stage: GateStage<A>,
)
    requires
        prep.prepares(ctx, stage),
    ensures
        stage.enabled == prep.enabled,
        stage.blend.mix == open_if(prep.enabled),
        stage.blend.target == open_if(prep.enabled),
        stage.params == prep.params,
        stage.ids == prep.ids,
        stage.prepared_for == ctx,
        was_told(
            prep.detector,
            seq![
                ParamChange { id: prep.ids.threshold_db, value: prep.params.threshold_db },
                ParamChange { id: prep.ids.attack_ms, value: prep.params.attack_ms },
                ParamChange { id: prep.ids.hold_ms, value: prep.params.hold_ms },
                ParamChange { id: prep.ids.release_ms, value: prep.params.release_ms },
            ],
            stage.detector,
        ),
        stage.readings() == stage.detector.0.readings(),
        call_ensures(
            A::one_pole_coefficient,
            (&prep.math, 15u32, ctx.rate()),
            stage.blend.coefficient,
        ),
{
}

} // verus!
