//! The output stage: a smoothed gain per channel, silence outright once a gain on its way there
//! has come close enough, and a meter per channel on what leaves the stage.

use vstd::prelude::*;

use crate::math::SampleMath;
use crate::param::{ParamChange, ParamId};
use crate::prepare::{PrepareContext, PrepareError};
use crate::sample::Sample;
use crate::stage::{runs, BoxedStage, Stage, StagePrep};
use crate::stage_io::StageIo;
use crate::telemetry::{newest, newest_of_newest, TelemetryEntry, TelemetrySink};

verus! {

/// How close to the level that counts as silence a smoothed gain has to come before it is taken for
/// silence, in decibels: one.
#[verifier::allow_in_spec]
pub fn silence_settle_margin_db() -> Sample
    returns
        Sample::one(),
{
    Sample::one()
}

/// How many readings a meter reports.
pub const METER_READINGS: usize = 4;

/// The ids one channel's meter reports under.
#[derive(Clone, Copy, Debug, PartialEq, Eq, Structural)]
pub struct ChannelTelemetryIds {
    /// The peak level.
    pub peak_db: u32,
    /// The average level.
    pub average_db: u32,
    /// The held peak.
    pub peak_hold_db: u32,
    /// Whether the channel has clipped.
    pub clipped: u32,
}

impl ChannelTelemetryIds {
    /// The id of a meter's `k`-th reading.
    pub open spec fn label(self, k: int) -> u32 {
        if k == 0 {
            self.peak_db
        } else if k == 1 {
            self.average_db
        } else if k == 2 {
            self.peak_hold_db
        } else {
            self.clipped
        }
    }

    /// The id of a meter's `k`-th reading.
    pub fn id_of(&self, k: usize) -> (id: u32)
        ensures
            id == self.label(k as int),
    {
        if k == 0 {
            self.peak_db
        } else if k == 1 {
            self.average_db
        } else if k == 2 {
            self.peak_hold_db
        } else {
            self.clipped
        }
    }
}

/// The level a smoothed gain stands at, in decibels: the last of its readings.
pub open spec fn level_of(gain: BoxedStage) -> Option<Sample> {
    if gain.0.readings().len() == 0 {
        None
    } else {
        Some(gain.0.readings().last().value)
    }
}

/// Reads the level a smoothed gain stands at.
pub fn read_level(gain: &BoxedStage) -> (level: Option<Sample>)
    ensures
        level == level_of(*gain),
{
    let mut reading: [TelemetryEntry; 1] = [TelemetryEntry { id: 0, value: Sample::zero() }];
    let mut sink = TelemetrySink::new(&mut reading);
    assert(sink@ + gain.0.readings() =~= gain.0.readings());
    gain.0.telemetry(&mut sink);
    if sink.is_empty() {
        None
    } else {
        Some(sink.entry(0).value)
    }
}

/// One output channel.
pub struct OutChannel {
    /// The smoothed gain.
    pub gain: BoxedStage,
    /// The meter. It reports the peak level, the average level, the held peak and whether the
    /// channel has clipped, in this order.
    pub meter: BoxedStage,
    /// The ids the meter's readings are passed on under.
    pub ids: ChannelTelemetryIds,
}

impl OutChannel {
    /// Whether a gain that is headed for silence, if `headed_for_silence`, has come to it.
    pub open spec fn silent(&self, headed_for_silence: bool, settled_db: Sample) -> bool {
        &&& headed_for_silence
        &&& level_of(self.gain) matches Some(level) && settled_db.reaches(level)
    }

    /// What processing a block comes to: the gain is applied, what has come to silence is zeroed,
    /// and the meter is shown what leaves.
    pub open spec fn plays(
        &self,
        headed_for_silence: bool,
        settled_db: Sample,
        input: Seq<Sample>,
        output: Seq<Sample>,
        after: OutChannel,
    ) -> bool {
        &&& after.ids == self.ids
        &&& exists|scaled: Seq<Sample>, shown: Seq<Seq<Sample>>|
            {
                &&& #[trigger] runs(self.gain, input, scaled, after.gain)
                &&& output == if after.silent(headed_for_silence, settled_db) {
                    Seq::new(input.len(), |i: int| Sample::zero())
                } else {
                    scaled
                }
                &&& #[trigger] self.meter.passes(seq![output], shown, after.meter)
            }
    }

    /// What the channel reports: its meter's readings, under the channel's own ids.
    pub open spec fn readings(&self) -> Seq<TelemetryEntry> {
        let read = newest(self.meter.0.readings(), METER_READINGS as nat);
        Seq::new(
            read.len(),
            |k: int| TelemetryEntry { id: self.ids.label(k), value: read[k].value },
        )
    }

    /// Processes channel `ch` of a block. `scratch` has room for it.
    fn run(
        &mut self,
        headed_for_silence: bool,
        settled_db: Sample,
        io: &mut StageIo,
        ch: usize,
        scratch: &mut StageIo,
    )
        requires
            old(io).wf(),
            ch < old(io)@.len(),
            old(scratch).shape().1.len() == 1,
            old(scratch)@.len() == 1,
            old(scratch).carries(old(io).length()),
        ensures
            final(io).shape() == old(io).shape(),
            final(io)@ == old(io)@.update(ch as int, final(io)@[ch as int]),
            final(scratch).shape().1 == old(scratch).shape().1,
            final(scratch)@.len() == 1,
            old(self).plays(
                headed_for_silence,
                settled_db,
                old(io)@[ch as int],
                final(io)@[ch as int],
                *final(self),
            ),
    {
        broadcast use StageIo::view_has_the_shape;

        let ghost input = io@[ch as int];
        scratch.set_frames(io.frames());
        scratch.copy_channel(0, io, ch);
        assert(scratch@ =~= seq![input]);
        self.gain.0.process(scratch);
        let ghost scaled = scratch@[0];
        proof {
            scratch.view_has_the_shape();
            io.view_has_the_shape();
            assert(scratch@ =~= seq![scaled]);
        }
        if headed_for_silence {
            if let Some(level) = read_level(&self.gain) {
                if settled_db.at_least(level) {
                    scratch.silence();
                }
            }
        }
        let ghost output = scratch@[0];
        proof {
            scratch.view_has_the_shape();
            assert(scratch@ =~= seq![output]);
            assert(output =~= if self.silent(headed_for_silence, settled_db) {
                Seq::new(input.len(), |i: int| Sample::zero())
            } else {
                scaled
            });
        }
        io.copy_channel(ch, scratch, 0);
        assert(io@[ch as int] == output);
        self.meter.0.process(scratch);
        proof {
            scratch.view_has_the_shape();
            assert(runs(old(self).gain, input, scaled, self.gain));
            assert(old(self).meter.passes(seq![output], scratch@, self.meter));
        }
    }

    /// Writes the channel's present readings into `out`.
    fn report(&self, out: &mut TelemetrySink<'_>)
        requires
            old(out).wf(),
        ensures
            final(out).wf(),
            final(out).room() == old(out).room(),
            final(final(out).buffer)@ == final(old(out).buffer)@,
            final(out)@ == newest(old(out)@ + self.readings(), old(out).room()),
    {
        let blank = TelemetryEntry { id: 0, value: Sample::zero() };
        let mut buffer: [TelemetryEntry; 4] = [blank, blank, blank, blank];
        let mut read = TelemetrySink::new(&mut buffer);
        assert(read@ + self.meter.0.readings() =~= self.meter.0.readings());
        self.meter.0.telemetry(&mut read);
        let ghost start = out@;
        let ghost room = out.room();
        proof {
            out.holds_no_more_than_its_room();
            assert(start + self.readings().subrange(0, 0) =~= start);
        }
        let count: usize = read.len();
        let mut k: usize = 0;
        while k < count
            invariant
                k <= count,
                count == read@.len(),
                read.wf(),
                read@ == newest(self.meter.0.readings(), METER_READINGS as nat),
                out.wf(),
                out.room() == room,
                final(out.buffer)@ == final(old(out).buffer)@,
                out@ == newest(start + self.readings().subrange(0, k as int), room),
            decreases count - k,
        {
            let entry = TelemetryEntry { id: self.ids.id_of(k), value: read.entry(k).value };
            let ghost listed = start + self.readings().subrange(0, k as int);
            let ghost before = out@;
            out.push(entry);
            proof {
                assert(before.push(entry) =~= before + seq![entry]);
                newest_of_newest(listed, seq![entry], room);
                assert(listed + seq![entry] =~= start + self.readings().subrange(0, k + 1));
            }
            k = k + 1;
        }
        assert(self.readings().subrange(0, count as int) =~= self.readings());
    }
}

/// Builds an [`OutStage`].
pub struct OutPrep<A: SampleMath> {
    /// The arithmetic of the settling level.
    pub math: A,
    /// The gain's parameter.
    pub gain_db: ParamId,
    /// The gain the stage starts out with, in decibels. The smoothed gains stand there already.
    pub gain_default_db: Sample,
    /// The parameter by which a smoothed gain is told its target.
    pub gain_target: ParamId,
    /// The gain that counts as silence, in decibels.
    pub silence_floor_db: Sample,
    /// The first channel.
    pub first: OutChannel,
    /// The second channel, which is left idle where there is only one.
    pub second: OutChannel,
}

impl<A: SampleMath> StagePrep for OutPrep<A> {
    type Prepared = OutStage;

    open spec fn prepares(self, ctx: PrepareContext, stage: OutStage) -> bool {
        &&& stage.wf()
        &&& call_ensures(
            A::sum,
            (&self.math, self.silence_floor_db, silence_settle_margin_db()),
            stage.settled_db,
        )
        &&& stage == (OutStage {
            gain_db: self.gain_db,
            gain_target_db: self.gain_default_db,
            gain_target: self.gain_target,
            silence_floor_db: self.silence_floor_db,
            settled_db: stage.settled_db,
            first: self.first,
            second: self.second,
            prepared_for: ctx,
            scratch: stage.scratch,
        })
    }

    fn prepare(self, ctx: &PrepareContext) -> (stage: Result<OutStage, PrepareError>)
        ensures
            stage is Ok,
    {
        let settled_db: Sample = self.math.sum(self.silence_floor_db, silence_settle_margin_db());
        Ok(
            OutStage {
                gain_db: self.gain_db,
                gain_target_db: self.gain_default_db,
                gain_target: self.gain_target,
                silence_floor_db: self.silence_floor_db,
                settled_db,
                first: self.first,
                second: self.second,
                prepared_for: *ctx,
                scratch: StageIo::zeroed(1, ctx.max_block_size()),
            },
        )
    }
}

/// The output stage.
pub struct OutStage {
    /// The gain's parameter.
    pub gain_db: ParamId,
    /// The gain the smoothed gains are heading for, in decibels.
    pub gain_target_db: Sample,
    /// The parameter by which a smoothed gain is told its target.
    pub gain_target: ParamId,
    /// The gain that counts as silence, in decibels.
    pub silence_floor_db: Sample,
    /// How close to that a smoothed gain has to come before it is taken for silence, in decibels.
    pub settled_db: Sample,
    /// The first channel.
    pub first: OutChannel,
    /// The second channel, which is left idle where there is only one.
    pub second: OutChannel,
    /// What the stage was prepared for.
    pub prepared_for: PrepareContext,
    /// One channel of the block.
    pub scratch: StageIo,
}

impl OutStage {
    /// The scratch buffer has room for one channel of the largest block.
    pub open spec fn wf(&self) -> bool {
        &&& self.scratch.shape().1.len() == 1
        &&& self.scratch@.len() == 1
        &&& self.scratch.carries(self.prepared_for.max_frames() as nat)
    }

    /// Whether the stage has room for a block of this many frames and channels.
    pub open spec fn takes(&self, frames: nat, channels: nat) -> bool {
        &&& frames <= self.prepared_for.max_frames()
        &&& 1 <= channels <= self.prepared_for.channels()
    }

    /// Whether the smoothed gains are heading for silence. A gain that only passes by the floor on
    /// its way to some other target is not.
    pub open spec fn headed_for_silence(&self) -> bool {
        self.silence_floor_db.reaches(self.gain_target_db)
    }

    /// What processing a block comes to: each channel goes its own way, towards the same target.
    pub open spec fn plays(
        &self,
        input: Seq<Seq<Sample>>,
        output: Seq<Seq<Sample>>,
        after: OutStage,
    ) -> bool {
        let silencing = self.headed_for_silence();
        &&& after == (OutStage {
            first: after.first,
            second: after.second,
            scratch: after.scratch,
            ..*self
        })
        &&& output.len() == input.len()
        &&& self.first.plays(silencing, self.settled_db, input[0], output[0], after.first)
        &&& if input.len() > 1 {
            self.second.plays(silencing, self.settled_db, input[1], output[1], after.second)
        } else {
            after.second == self.second
        }
    }

    /// What a reset comes to: the meters are cleared, and the gains stay where they are.
    pub open spec fn resets_to(&self, after: OutStage) -> bool {
        &&& after == (OutStage {
            first: OutChannel { meter: after.first.meter, ..self.first },
            second: OutChannel { meter: after.second.meter, ..self.second },
            ..*self
        })
        &&& self.first.meter.clears_to(after.first.meter)
        &&& self.second.meter.clears_to(after.second.meter)
    }

    /// What a parameter update comes to: a new gain is passed on to every channel's smoothed gain.
    pub open spec fn applies(&self, change: ParamChange, after: OutStage) -> bool {
        let told = seq![ParamChange { id: self.gain_target, value: change.value }];
        if change.id == self.gain_db {
            &&& after == (OutStage {
                gain_target_db: change.value,
                first: OutChannel { gain: after.first.gain, ..self.first },
                second: OutChannel { gain: after.second.gain, ..self.second },
                ..*self
            })
            &&& self.first.gain.hears(told, after.first.gain)
            &&& self.second.gain.hears(told, after.second.gain)
        } else {
            after == *self
        }
    }

    /// What the stage reports: the meters' readings, channel by channel.
    pub open spec fn readings(&self) -> Seq<TelemetryEntry> {
        if self.prepared_for.channels() > 1 {
            self.first.readings() + self.second.readings()
        } else {
            self.first.readings()
        }
    }

    /// Processes one block in place.
    pub fn process(&mut self, io: &mut StageIo)
        requires
            old(self).wf(),
            old(io).wf(),
            old(self).takes(old(io).length(), old(io)@.len()),
        ensures
            final(self).wf(),
            final(io).shape() == old(io).shape(),
            old(self).plays(old(io)@, final(io)@, *final(self)),
    {
        let silencing: bool = self.silence_floor_db.at_least(self.gain_target_db);
        self.first.run(silencing, self.settled_db, io, 0, &mut self.scratch);
        if io.channel_count() > 1 {
            self.second.run(silencing, self.settled_db, io, 1, &mut self.scratch);
        }
    }

    /// Clears the meters. The gains keep their place: a reset is not a change of the level.
    pub fn reset(&mut self)
        requires
            old(self).wf(),
        ensures
            final(self).wf(),
            old(self).resets_to(*final(self)),
    {
        self.first.meter.0.reset();
        self.second.meter.0.reset();
    }

    /// The stage adds no delay.
    pub fn latency_samples(&self) -> (samples: u32)
        ensures
            samples == 0,
    {
        0
    }

    /// The stage falls silent with its input.
    pub fn tail_samples(&self) -> (samples: u32)
        ensures
            samples == 0,
    {
        0
    }

    /// Applies a parameter update, ignoring any parameter the stage does not own.
    pub fn apply(&mut self, change: ParamChange)
        requires
            old(self).wf(),
        ensures
            final(self).wf(),
            old(self).applies(change, *final(self)),
    {
        if change.id == self.gain_db {
            self.gain_target_db = change.value;
            let told = ParamChange { id: self.gain_target, value: change.value };
            self.first.gain.0.apply(told);
            self.second.gain.0.apply(told);
            proof {
                old(self).first.gain.hears_one(told, self.first.gain);
                old(self).second.gain.hears_one(told, self.second.gain);
            }
        }
    }

    /// Writes the stage's present readings into `out`.
    pub fn telemetry(&self, out: &mut TelemetrySink<'_>)
        requires
            old(out).wf(),
        ensures
            final(out).wf(),
            final(out).room() == old(out).room(),
            final(final(out).buffer)@ == final(old(out).buffer)@,
            final(out)@ == newest(old(out)@ + self.readings(), old(out).room()),
    {
        self.first.report(out);
        if self.prepared_for.channel_config().output_channels() > 1 {
            self.second.report(out);
            proof {
                let listed = old(out)@ + self.first.readings();
                newest_of_newest(listed, self.second.readings(), old(out).room());
                assert(listed + self.second.readings() =~= old(out)@ + self.readings());
            }
        }
    }
}

/// Once a stage is headed for silence, a channel whose gain has come close enough to it puts out
/// nothing but zeros, whatever comes in.
pub proof fn a_settled_silence_is_exact(
    stage: OutStage,
    input: Seq<Seq<Sample>>,
    output: Seq<Seq<Sample>>,
    after: OutStage,
)
    requires
        stage.plays(input, output, after),
        stage.headed_for_silence(),
    ensures
        after.first.silent(true, stage.settled_db) ==> output[0] == Seq::new(
            input[0].len(),
            |i: int| Sample::zero(),
        ),
        input.len() > 1 && after.second.silent(true, stage.settled_db) ==> output[1] == Seq::new(
            input[1].len(),
            |i: int| Sample::zero(),
        ),
{
}

/// A stage that is not headed for silence never zeroes a block, however low a gain may be for the
/// moment: what leaves is what the gain has made of it.
pub proof fn passing_by_the_floor_silences_nothing(
    stage: OutStage,
    input: Seq<Seq<Sample>>,
    output: Seq<Seq<Sample>>,
    after: OutStage,
)
    requires
        stage.plays(input, output, after),
        !stage.headed_for_silence(),
    ensures
        stage.first.gain.passes(seq![input[0]], seq![output[0]], after.first.gain),
        input.len() > 1 ==> stage.second.gain.passes(
            seq![input[1]],
            seq![output[1]],
            after.second.gain,
        ),
{
}

} // verus!
