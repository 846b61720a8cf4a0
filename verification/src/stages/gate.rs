//! The noise gate: a detector that runs on channel 0 and is duplicated, behind the stage's own
//! click-free bypass blend.

use vstd::prelude::*;

use crate::math::SampleMath;
use crate::param::{ParamChange, ParamId};
use crate::prepare::{PrepareContext, PrepareError};
use crate::sample::Sample;
use crate::stage::{run_alone, runs, told_all, BoxedStage, StagePrep};
use crate::stage_io::StageIo;
use crate::stages::bypass::{block_blends, BypassBlend, BYPASS_CROSSFADE_TIME_CONSTANT_MS};
use crate::telemetry::{newest, TelemetryEntry, TelemetrySink};

verus! {

/// The ids the stage answers to.
#[derive(Clone, Copy, Debug, PartialEq, Eq, Structural)]
pub struct GateIds {
    /// Switches the stage on and off.
    pub enabled: ParamId,
    /// The level above which it opens, in decibels.
    pub threshold_db: ParamId,
    /// How fast it opens, in milliseconds.
    pub attack_ms: ParamId,
    /// How long it stays open once the level has dropped, in milliseconds.
    pub hold_ms: ParamId,
    /// How fast it closes, in milliseconds.
    pub release_ms: ParamId,
}

/// The detector's settings.
#[derive(Clone, Copy, Debug, PartialEq, Eq, Structural)]
pub struct GateParams {
    /// The level above which it opens, in decibels.
    pub threshold_db: Sample,
    /// How fast it opens, in milliseconds.
    pub attack_ms: Sample,
    /// How long it stays open once the level has dropped, in milliseconds.
    pub hold_ms: Sample,
    /// How fast it closes, in milliseconds.
    pub release_ms: Sample,
}

impl GateParams {
    /// Whether a parameter is one of the detector's.
    pub open spec fn own(ids: GateIds, id: ParamId) -> bool {
        ||| id == ids.threshold_db
        ||| id == ids.attack_ms
        ||| id == ids.hold_ms
        ||| id == ids.release_ms
    }

    /// The settings after a change.
    pub open spec fn changed(self, ids: GateIds, change: ParamChange) -> GateParams {
        if change.id == ids.threshold_db {
            GateParams { threshold_db: change.value, ..self }
        } else if change.id == ids.attack_ms {
            GateParams { attack_ms: change.value, ..self }
        } else if change.id == ids.hold_ms {
            GateParams { hold_ms: change.value, ..self }
        } else if change.id == ids.release_ms {
            GateParams { release_ms: change.value, ..self }
        } else {
            self
        }
    }

    /// The settings as the changes that a detector is told them by.
    pub open spec fn briefing(self, ids: GateIds) -> Seq<ParamChange> {
        seq![
            ParamChange { id: ids.threshold_db, value: self.threshold_db },
            ParamChange { id: ids.attack_ms, value: self.attack_ms },
            ParamChange { id: ids.hold_ms, value: self.hold_ms },
            ParamChange { id: ids.release_ms, value: self.release_ms },
        ]
    }

    /// Tells a detector all its settings.
    pub fn brief(&self, ids: &GateIds, detector: &mut BoxedStage)
        ensures
            old(detector).hears(self.briefing(*ids), *final(detector)),
    {
        detector.0.apply(ParamChange { id: ids.threshold_db, value: self.threshold_db });
        detector.0.apply(ParamChange { id: ids.attack_ms, value: self.attack_ms });
        detector.0.apply(ParamChange { id: ids.hold_ms, value: self.hold_ms });
        detector.0.apply(ParamChange { id: ids.release_ms, value: self.release_ms });
        let ghost all = self.briefing(*ids);
        assert(detector.0.told() =~= old(detector).0.told() + all);
        assert(detector.0.history() =~= old(detector).0.history() + told_all(all));
    }

    /// Takes over a change and says whether it was one of the detector's.
    pub fn apply(&mut self, ids: &GateIds, change: ParamChange) -> (owned: bool)
        ensures
            owned == GateParams::own(*ids, change.id),
            *final(self) == old(self).changed(*ids, change),
    {
        if change.id == ids.threshold_db {
            self.threshold_db = change.value;
        } else if change.id == ids.attack_ms {
            self.attack_ms = change.value;
        } else if change.id == ids.hold_ms {
            self.hold_ms = change.value;
        } else if change.id == ids.release_ms {
            self.release_ms = change.value;
        } else {
            return false;
        }
        true
    }
}

/// Builds a [`GateStage`].
pub struct GatePrep<A: SampleMath> {
    /// The arithmetic of the blend.
    pub math: A,
    /// The ids the stage answers to.
    pub ids: GateIds,
    /// Whether the stage starts out switched on.
    pub enabled: bool,
    /// The settings the detector starts out with.
    pub params: GateParams,
    /// The detector. It is told those settings.
    pub detector: BoxedStage,
}

impl<A: SampleMath> StagePrep for GatePrep<A> {
    type Prepared = GateStage<A>;

    open spec fn prepares(self, ctx: PrepareContext, stage: GateStage<A>) -> bool {
        &&& stage.wf()
        &&& stage.prepared_for == ctx
        &&& stage.math == self.math
        &&& stage.ids == self.ids
        &&& stage.enabled == self.enabled
        &&& stage.params == self.params
        &&& self.detector.hears(self.params.briefing(self.ids), stage.detector)
        &&& stage.blend.mix == Sample::of_flag(self.enabled)
        &&& stage.blend.target == Sample::of_flag(self.enabled)
        &&& call_ensures(
            A::one_pole_coefficient,
            (&self.math, BYPASS_CROSSFADE_TIME_CONSTANT_MS, ctx.rate()),
            stage.blend.coefficient,
        )
    }

    fn prepare(self, ctx: &PrepareContext) -> (stage: Result<GateStage<A>, PrepareError>)
        ensures
            stage is Ok,
    {
        let coefficient: Sample = self.math.one_pole_coefficient(
            BYPASS_CROSSFADE_TIME_CONSTANT_MS,
            ctx.sample_rate().hz(),
        );
        let settled: Sample = Sample::from_flag(self.enabled);
        let mut detector: BoxedStage = self.detector;
        self.params.brief(&self.ids, &mut detector);
        Ok(
            GateStage {
                math: self.math,
                ids: self.ids,
                detector,
                params: self.params,
                enabled: self.enabled,
                blend: BypassBlend { mix: settled, target: settled, coefficient },
                dry: StageIo::zeroed(ctx.channel_config().output_channels(), ctx.max_block_size()),
                scratch: StageIo::zeroed(1, ctx.max_block_size()),
                prepared_for: *ctx,
            },
        )
    }
}

/// The noise gate.
pub struct GateStage<A: SampleMath> {
    /// The arithmetic of the blend.
    pub math: A,
    /// The ids the stage answers to.
    pub ids: GateIds,
    /// The detector.
    pub detector: BoxedStage,
    /// The detector's settings.
    pub params: GateParams,
    /// Whether the stage is switched on.
    pub enabled: bool,
    /// The blend between the stage's input and its output.
    pub blend: BypassBlend,
    /// The block as it came in.
    pub dry: StageIo,
    /// Channel 0 on its way through the detector.
    pub scratch: StageIo,
    /// What the stage is prepared for.
    pub prepared_for: PrepareContext,
}

impl<A: SampleMath> GateStage<A> {
    /// Every buffer carries the largest block.
    pub open spec fn wf(&self) -> bool {
        &&& self.dry@.len() == self.prepared_for.channels()
        &&& self.dry.shape().1.len() == self.prepared_for.channels()
        &&& self.dry.carries(self.prepared_for.max_frames() as nat)
        &&& self.scratch@.len() == 1
        &&& self.scratch.carries(self.prepared_for.max_frames() as nat)
    }

    /// Whether the stage has room for a block of this many frames and channels.
    pub open spec fn takes(&self, frames: nat, channels: nat) -> bool {
        &&& frames <= self.prepared_for.max_frames()
        &&& 1 <= channels <= self.prepared_for.channels()
    }

    /// What the stage makes of a block: channel 0 gated, on every channel, blended against each
    /// channel's own input. `end` is where the blend stands afterwards, and `detector` the detector
    /// then.
    pub open spec fn renders(
        &self,
        input: Seq<Seq<Sample>>,
        output: Seq<Seq<Sample>>,
        end: Sample,
        detector: BoxedStage,
    ) -> bool {
        exists|gated: Seq<Sample>|
            {
                &&& #[trigger] runs(self.detector, input[0], gated, detector)
                &&& block_blends(
                    self.math,
                    self.blend,
                    input,
                    Seq::new(input.len(), |ch: int| gated),
                    output,
                    end,
                )
            }
    }

    /// What processing a block comes to: settings stay, the blend moves on.
    pub open spec fn plays(
        &self,
        input: Seq<Seq<Sample>>,
        output: Seq<Seq<Sample>>,
        after: GateStage<A>,
    ) -> bool {
        &&& after.math == self.math
        &&& after.ids == self.ids
        &&& after.enabled == self.enabled
        &&& after.params == self.params
        &&& after.prepared_for == self.prepared_for
        &&& after.blend == (BypassBlend { mix: after.blend.mix, ..self.blend })
        &&& self.renders(input, output, after.blend.mix, after.detector)
    }

    /// What a parameter update comes to: the stage's own switch is applied here, the detector's
    /// settings are recorded and passed on, and anything else is ignored.
    pub open spec fn applies(&self, change: ParamChange, after: GateStage<A>) -> bool {
        &&& if change.id == self.ids.enabled {
            after == (GateStage {
                enabled: change.on(),
                blend: BypassBlend { target: Sample::of_flag(change.on()), ..self.blend },
                ..*self
            })
        } else {
            after == (GateStage {
                params: self.params.changed(self.ids, change),
                detector: after.detector,
                ..*self
            })
        }
        &&& if GateParams::own(self.ids, change.id) && change.id != self.ids.enabled {
            self.detector.hears(seq![change], after.detector)
        } else {
            after.detector == self.detector
        }
    }

    /// What a reset comes to: only the detector's state changes.
    pub open spec fn resets_to(&self, after: GateStage<A>) -> bool {
        &&& after == (GateStage { detector: after.detector, ..*self })
        &&& self.detector.clears_to(after.detector)
    }

    /// Processes one block in place.
    pub fn process(&mut self, io: &mut StageIo)
        requires
            old(self).wf(),
            old(io).wf(),
            old(self).takes(old(io).length(), old(io)@.len()),
        ensures
            final(self).wf(),
            final(io).shape() == old(io).shape(),
            old(self).plays(old(io)@, final(io)@, *final(self)),
    {
        broadcast use StageIo::view_has_the_shape;

        let ghost input = io@;
        proof {
            io.view_has_the_shape();
        }
        self.dry.copy_from(io);
        self.scratch.set_frames(io.frames());
        self.scratch.copy_channel(0, io, 0);
        assert(self.scratch@ =~= seq![input[0]]);
        run_alone(&mut self.detector, &mut self.scratch);
        let ghost gated = self.scratch@[0];
        assert(runs(old(self).detector, input[0], gated, self.detector));
        let channels: usize = io.channel_count();
        let mut ch: usize = 0;
        while ch < channels
            invariant
                ch <= channels,
                channels == io@.len(),
                channels == input.len(),
                io.wf(),
                io.shape() == old(io).shape(),
                self.scratch.wf(),
                self.scratch.length() == io.length(),
                self.scratch@.len() == 1,
                self.scratch@[0] == gated,
                forall|c: int| 0 <= c < ch ==> #[trigger] io@[c] == gated,
            decreases channels - ch,
        {
            io.copy_channel(ch, &self.scratch, 0);
            ch = ch + 1;
        }
        assert(io@ =~= Seq::new(input.len(), |c: int| gated));
        self.blend.run(&self.math, &self.dry, io);
        proof {
            assert(block_blends(
                self.math,
                old(self).blend,
                input,
                Seq::new(input.len(), |c: int| gated),
                io@,
                self.blend.mix,
            ));
        }
    }

    /// Resets the detector.
    pub fn reset(&mut self)
        requires
            old(self).wf(),
        ensures
            final(self).wf(),
            old(self).resets_to(*final(self)),
    {
        self.detector.0.reset();
    }

    /// The stage adds no delay.
    pub fn latency_samples(&self) -> (samples: u32)
        ensures
            samples == 0,
    {
        0
    }

    /// The stage has no tail.
    pub fn tail_samples(&self) -> (samples: u32)
        ensures
            samples == 0,
    {
        0
    }

    /// Applies a parameter update, ignoring any parameter the stage does not own.
    pub fn apply(&mut self, change: ParamChange)
        requires
            old(self).wf(),
        ensures
            final(self).wf(),
            old(self).applies(change, *final(self)),
    {
        if change.id == self.ids.enabled {
            self.enabled = change.switches_on();
            self.blend.target = Sample::from_flag(self.enabled);
        } else if self.params.apply(&self.ids, change) {
            self.detector.0.apply(change);
            proof {
                old(self).detector.hears_one(change, self.detector);
            }
        }
    }

    /// The stage reports what the detector reports.
    pub open spec fn readings(&self) -> Seq<TelemetryEntry> {
        self.detector.0.readings()
    }

    /// Writes the stage's present readings into `out`.
    pub fn telemetry(&self, out: &mut TelemetrySink<'_>)
        requires
            old(out).wf(),
        ensures
            final(out).wf(),
            final(out).room() == old(out).room(),
            final(final(out).buffer)@ == final(old(out).buffer)@,
            final(out)@ == newest(old(out)@ + self.readings(), old(out).room()),
    {
        self.detector.0.telemetry(out);
    }
}

} // verus!
