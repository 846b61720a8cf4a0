//! What the output stage is for: one gain for all channels, exact silence at the floor and only
//! there, and meters on what leaves.

use vstd::prelude::*;

use crate::laws::{has_played, was_cleared, was_told};
use crate::math::SampleMath;
use crate::param::ParamChange;
use crate::prepare::PrepareContext;
use crate::sample::Sample;
use crate::stage::{runs, BoxedStage, StagePrep};
use crate::stages::out::{level_of, ChannelTelemetryIds, OutChannel, OutPrep, OutStage};
use crate::telemetry::TelemetryEntry;

verus! {

/// The gain goes where it is sent, from wherever it was, silence included: its target is the value
/// of the last update, and both channels' smoothed gains have been told so. Nothing else changes.
pub proof fn the_gain_can_be_sent_anywhere(stage: OutStage, change: ParamChange, after: OutStage)
    requires
        change.id == stage.gain_db,
        stage.applies(change, after),
    ensures
        after.gain_target_db == change.value,
        was_told(
            stage.first.gain,
            seq![ParamChange { id: stage.gain_target, value: change.value }],
            after.first.gain,
        ),
        was_told(
            stage.second.gain,
            seq![ParamChange { id: stage.gain_target, value: change.value }],
            after.second.gain,
        ),
        after.first.meter == stage.first.meter,
        after.second.meter == stage.second.meter,
        after.first.ids == stage.first.ids,
        after.second.ids == stage.second.ids,
        after.gain_db == stage.gain_db,
        after.gain_target == stage.gain_target,
        after.silence_floor_db == stage.silence_floor_db,
        after.settled_db == stage.settled_db,
        after.prepared_for == stage.prepared_for,
        after.scratch == stage.scratch,
{
}

/// An update that is not for the gain is ignored.
pub proof fn other_updates_are_ignored(stage: OutStage, change: ParamChange, after: OutStage)
    requires
        change.id != stage.gain_db,
        stage.applies(change, after),
    ensures
        after == stage,
{
}

/// The stage is headed for silence exactly while its target is at or below the floor.
pub proof fn the_floor_decides_what_is_silence(stage: OutStage)
    ensures
        stage.headed_for_silence() == stage.silence_floor_db.reaches(stage.gain_target_db),
{
}

/// A stage that was silenced is heard again as soon as it is given a gain above the floor: from the
/// next block on, what leaves is what the smoothed gains make of it.
pub proof fn silence_can_be_left(
    stage: OutStage,
    change: ParamChange,
    raised: OutStage,
    input: Seq<Seq<Sample>>,
    output: Seq<Seq<Sample>>,
    after: OutStage,
)
    requires
        change.id == stage.gain_db,
        stage.applies(change, raised),
        !stage.silence_floor_db.reaches(change.value),
        raised.plays(input, output, after),
    ensures
        has_played(raised.first.gain, seq![input[0]], seq![output[0]], after.first.gain),
        input.len() > 1 ==> has_played(
            raised.second.gain,
            seq![input[1]],
            seq![output[1]],
            after.second.gain,
        ),
{
}

/// Whether one channel has been given its gain and shown to its meter: what leaves is what the gain
/// made of it, or silence, outright, once a gain on its way there has come close enough.
pub open spec fn channel_leaves(
    stage: OutStage,
    channel: OutChannel,
    input: Seq<Sample>,
    scaled: Seq<Sample>,
    shown: Seq<Seq<Sample>>,
    output: Seq<Sample>,
    after: OutChannel,
) -> bool {
    let readings = after.gain.0.readings();
    let silenced = stage.silence_floor_db.reaches(stage.gain_target_db) && readings.len() > 0
        && stage.settled_db.reaches(readings[readings.len() - 1].value);
    &&& has_played(channel.gain, seq![input], seq![scaled], after.gain)
    &&& output.len() == input.len()
    &&& !silenced ==> output == scaled
    &&& silenced ==> forall|i: int| 0 <= i < output.len() ==> (#[trigger] output[i]).bits == 0
    &&& has_played(channel.meter, seq![output], shown, after.meter)
    &&& after.ids == channel.ids
}

/// Each channel is given its own gain, is silenced exactly if the stage is headed for silence and
/// its own gain has come there, and is metered as it leaves. The target stays what it is.
pub proof fn each_channel_is_scaled_silenced_and_metered(
    stage: OutStage,
    input: Seq<Seq<Sample>>,
    output: Seq<Seq<Sample>>,
    after: OutStage,
)
    requires
        stage.plays(input, output, after),
    ensures
        output.len() == input.len(),
        exists|scaled: Seq<Sample>, shown: Seq<Seq<Sample>>| #[trigger]
            channel_leaves(
                stage,
                stage.first,
                input[0],
                scaled,
                shown,
                output[0],
                after.first,
            ),
        input.len() > 1 ==> exists|scaled: Seq<Sample>, shown: Seq<Seq<Sample>>| #[trigger]
            channel_leaves(
                stage,
                stage.second,
                input[1],
                scaled,
                shown,
                output[1],
                after.second,
            ),
        input.len() <= 1 ==> after.second == stage.second,
        after.gain_target_db == stage.gain_target_db,
        after.silence_floor_db == stage.silence_floor_db,
        after.settled_db == stage.settled_db,
        after.gain_db == stage.gain_db,
        after.gain_target == stage.gain_target,
        after.prepared_for == stage.prepared_for,
{
    lemma_channel_leaves(stage, stage.first, input[0], output[0], after.first);
    if input.len() > 1 {
        lemma_channel_leaves(stage, stage.second, input[1], output[1], after.second);
    }
}

/// One channel.
proof fn lemma_channel_leaves(
    stage: OutStage,
    channel: OutChannel,
    input: Seq<Sample>,
    output: Seq<Sample>,
    after: OutChannel,
)
    requires
        channel.plays(stage.headed_for_silence(), stage.settled_db, input, output, after),
    ensures
        exists|scaled: Seq<Sample>, shown: Seq<Seq<Sample>>| #[trigger]
            channel_leaves(stage, channel, input, scaled, shown, output, after),
{
    let settled = stage.settled_db;
    let headed = stage.headed_for_silence();
    let (scaled, shown) = choose|scaled: Seq<Sample>, shown: Seq<Seq<Sample>>|
        {
            &&& #[trigger] runs(channel.gain, input, scaled, after.gain)
            &&& output == if after.silent(headed, settled) {
                Seq::new(input.len(), |i: int| Sample::zero())
            } else {
                scaled
            }
            &&& #[trigger] channel.meter.passes(seq![output], shown, after.meter)
        };
    assert(channel_leaves(stage, channel, input, scaled, shown, output, after));
}

/// A gain's level is the last thing it reports.
pub proof fn a_gain_reports_its_level_last(gain: BoxedStage)
    ensures
        level_of(gain) is None <==> gain.0.readings().len() == 0,
        gain.0.readings().len() > 0 ==> level_of(gain) == Some(
            gain.0.readings()[gain.0.readings().len() - 1].value,
        ),
{
}

/// A reset clears both meters. It is not a change of the level: gains, target and floor stay.
pub proof fn a_reset_clears_the_meters_only(stage: OutStage, after: OutStage)
    requires
        stage.resets_to(after),
    ensures
        was_cleared(stage.first.meter, after.first.meter),
        was_cleared(stage.second.meter, after.second.meter),
        after.first.gain == stage.first.gain,
        after.second.gain == stage.second.gain,
        after.first.ids == stage.first.ids,
        after.second.ids == stage.second.ids,
        after.gain_target_db == stage.gain_target_db,
        after.silence_floor_db == stage.silence_floor_db,
        after.settled_db == stage.settled_db,
        after.gain_db == stage.gain_db,
        after.gain_target == stage.gain_target,
        after.prepared_for == stage.prepared_for,
{
}

/// A prepared stage heads for the gain it was given, with the processors it was given, and takes a
/// gain for silence within one decibel of the floor.
pub proof fn a_prepared_output_is_set<A: SampleMath>(
    prep: OutPrep<A>,
    ctx: PrepareContext,
    stage: OutStage,
)
    requires
        prep.prepares(ctx, stage),
    ensures
        stage.gain_target_db == prep.gain_default_db,
        stage.gain_db == prep.gain_db,
        stage.gain_target == prep.gain_target,
        stage.silence_floor_db == prep.silence_floor_db,
        call_ensures(
            A::sum,
            (&prep.math, prep.silence_floor_db, Sample { bits: 0x3f80_0000 }),
            stage.settled_db,
        ),
        stage.first == prep.first,
        stage.second == prep.second,
        stage.prepared_for == ctx,
{
}

/// Whether these are the readings of a channel whose meter reports four: peak, average, held peak
/// and clip, in this order, each under the channel's own id.
pub open spec fn reports(
    ids: ChannelTelemetryIds,
    meter: BoxedStage,
    all: Seq<TelemetryEntry>,
) -> bool {
    let read = meter.0.readings();
    &&& all.len() == 4
    &&& all[0] == (TelemetryEntry { id: ids.peak_db, value: read[0].value })
    &&& all[1] == (TelemetryEntry { id: ids.average_db, value: read[1].value })
    &&& all[2] == (TelemetryEntry { id: ids.peak_hold_db, value: read[2].value })
    &&& all[3] == (TelemetryEntry { id: ids.clipped, value: read[3].value })
}

/// The stage reports every channel it has, and no other: the first channel's readings, and behind
/// them the second's where there is one.
pub proof fn every_channel_is_reported(stage: OutStage)
    requires
        stage.first.meter.0.readings().len() == 4,
        stage.second.meter.0.readings().len() == 4,
    ensures
        reports(stage.first.ids, stage.first.meter, stage.readings().take(4)),
        stage.prepared_for.channels() > 1 ==> stage.readings().len() == 8 && reports(
            stage.second.ids,
            stage.second.meter,
            stage.readings().skip(4),
        ),
        stage.prepared_for.channels() <= 1 ==> stage.readings().len() == 4,
{
    let first = stage.first.readings();
    assert(first.len() == 4);
    assert(stage.readings().take(4) =~= first);
    if stage.prepared_for.channels() > 1 {
        assert(stage.readings().skip(4) =~= stage.second.readings());
    }
}

} // verus!
