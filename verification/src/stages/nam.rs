//! The amp-model stage: up to two model slots with an equal-power handover between them, run on
//! channel 0 and duplicated, behind the stage's own click-free bypass blend.
//!
//! Two fades compose here. The handover fade blends the outgoing slot's output into the incoming
//! one's; an empty slot contributes its input. The bypass blend then fades that result against the
//! stage's dry input. On a first load the outgoing side is the dry input itself, so the bypass
//! blend opens at once and the handover fade is what is heard.

use vstd::prelude::*;

use crate::command::{counted_up, RetireSink};
use crate::math::{faded, summed, SampleMath};
use crate::param::{ParamChange, ParamId};
use crate::prepare::{PrepareContext, PrepareError, SampleRate};
use crate::resource::{Resource, ResourceKind};
use crate::sample::Sample;
use crate::stage::{runs, BoxedStage, Stage, StagePrep};
use crate::stage_io::StageIo;
use crate::stages::bypass::{block_blends, BypassBlend, BYPASS_CROSSFADE_TIME_CONSTANT_MS};
use crate::stages::handover::{occupant, Crossfade, Handover, Identified, Parked};
use crate::stages::resampler::{pipeline_latency, ConverterFigures, SlotResampler};
use crate::telemetry::{newest, TelemetryEntry, TelemetrySink};

verus! {

/// One prepared model: the processor that runs it, the queues around it if it runs at another rate
/// than the engine, and the gain that brings it to the common loudness.
pub struct NamSlot {
    /// Runs the model. With queues around it, it includes the converters and takes whole chunks.
    pub core: BoxedStage,
    /// The queues, if the model's rate differs from the engine's.
    pub resample: Option<SlotResampler>,
    /// The gain, in decibels, that brings the model to the common loudness.
    pub base_normalize_gain_db: Sample,
    /// The smoothed gain that applies it.
    pub normalize_gain: BoxedStage,
    /// The parameter by which the smoothed gain is told its target.
    pub gain_target: ParamId,
}

impl Identified for NamSlot {
    open spec fn identity(&self) -> int {
        self.core.0.identity()
    }
}

/// Whether the slot's model may turn a block into `output`, before the loudness gain, and the
/// slot's model and queues be left as those of `after`.
pub open spec fn model_plays(
    slot: NamSlot,
    input: Seq<Sample>,
    output: Seq<Sample>,
    after: NamSlot,
) -> bool {
    match (slot.resample, after.resample) {
        (None, None) => runs(slot.core, input, output, after.core),
        (Some(queues), Some(left)) => queues.passes_on(
            slot.core,
            input,
            output,
            left,
            after.core,
        ),
        _ => false,
    }
}

/// How loudness normalisation is set.
#[derive(Clone, Copy, Debug, PartialEq, Eq, Structural)]
pub struct Normalize {
    /// Whether it is switched on.
    pub enabled: bool,
    /// The user's trim on top of the normalisation gain, in decibels.
    pub offset_db: Sample,
}

/// Whether `target` is the gain a slot is heading for: its own, shifted by the user's offset, or
/// none at all while normalisation is off.
pub open spec fn aims<A: SampleMath>(
    math: A,
    slot: NamSlot,
    normalize: Normalize,
    target: Sample,
) -> bool {
    if normalize.enabled {
        summed(math, slot.base_normalize_gain_db, normalize.offset_db, target)
    } else {
        target == Sample::zero()
    }
}

/// Whether the slot's loudness gain, once it has been told its target, may turn a block into
/// `output` and be left as that of `after`.
pub open spec fn gain_plays(
    slot: NamSlot,
    target: Sample,
    input: Seq<Sample>,
    output: Seq<Sample>,
    after: NamSlot,
) -> bool {
    exists|gain: BoxedStage|
        {
            &&& #[trigger] runs(gain, input, output, after.normalize_gain)
            &&& slot.normalize_gain.hears(
                seq![ParamChange { id: slot.gain_target, value: target }],
                gain,
            )
        }
}

/// Whether the slot may turn a block into `output` and be left as `after`: the model's output,
/// passed through the loudness gain on its way to the target for these settings.
pub open spec fn slot_plays<A: SampleMath>(
    math: A,
    slot: NamSlot,
    normalize: Normalize,
    input: Seq<Sample>,
    output: Seq<Sample>,
    after: NamSlot,
) -> bool {
    &&& after.base_normalize_gain_db == slot.base_normalize_gain_db
    &&& after.gain_target == slot.gain_target
    &&& exists|modelled: Seq<Sample>, target: Sample|
        {
            &&& model_plays(slot, input, modelled, after)
            &&& aims(math, slot, normalize, target)
            &&& #[trigger] gain_plays(slot, target, modelled, output, after)
        }
}

impl NamSlot {
    /// The queues, if there are any, are in order.
    pub open spec fn wf(&self) -> bool {
        self.resample matches Some(queues) ==> queues.wf()
    }

    /// The delay the slot adds, in samples: that of its queues and converters, if it has any.
    pub open spec fn latency(&self) -> u32 {
        match self.resample {
            None => 0,
            Some(queues) => queues.latency(),
        }
    }

    /// Wraps a model that runs at `model_rate` for an engine that runs at `engine_rate`. At equal
    /// rates the model runs on the engine's own blocks, at no added latency; otherwise it is given
    /// queues, and runs in chunks. A model that declares no loudness is given no gain.
    pub fn new(
        core: BoxedStage,
        engine_rate: SampleRate,
        model_rate: SampleRate,
        max_block_size: usize,
        figures: ConverterFigures,
        loudness_gain_db: Option<Sample>,
        normalize_gain: BoxedStage,
        gain_target: ParamId,
    ) -> (slot: NamSlot)
        requires
            model_rate.rate() != engine_rate.rate() ==> figures.engine_block >= 1 && 4 * (16 * (
            figures.engine_block + max_block_size) + 4096) <= isize::MAX,
        ensures
            slot.wf(),
            slot.core == core,
            slot.normalize_gain == normalize_gain,
            slot.gain_target == gain_target,
            slot.base_normalize_gain_db == match loudness_gain_db {
                Some(db) => db,
                None => Sample::zero(),
            },
            slot.resample is Some <==> model_rate.rate() != engine_rate.rate(),
            slot.resample matches Some(queues) ==> queues.block() == figures.engine_block
                && queues.latency() == pipeline_latency(
                figures,
                engine_rate.rate(),
                model_rate.rate(),
            ) && queues.waiting() == Seq::<Sample>::empty() && queues.ready() == Seq::new(
                figures.engine_block as nat,
                |i: int| Sample::zero(),
            ),
    {
        let base_normalize_gain_db: Sample = match loudness_gain_db {
            Some(db) => db,
            None => Sample::zero(),
        };
        let resample: Option<SlotResampler> = if model_rate.hz() == engine_rate.hz() {
            None
        } else {
            Some(SlotResampler::new(engine_rate, model_rate, max_block_size, figures))
        };
        NamSlot { core, resample, base_normalize_gain_db, normalize_gain, gain_target }
    }

    /// The gain the slot is heading for.
    pub fn normalize_target<A: SampleMath>(&self, math: &A, normalize: Normalize) -> (target:
        Sample)
        ensures
            aims(*math, *self, normalize, target),
    {
        if normalize.enabled {
            math.sum(self.base_normalize_gain_db, normalize.offset_db)
        } else {
            Sample::zero()
        }
    }

    /// Runs one block of a single channel through the model and the loudness gain, in place.
    pub fn process_wet<A: SampleMath>(
        &mut self,
        math: &A,
        io: &mut StageIo,
        normalize: Normalize,
    )
        requires
            old(io).wf(),
            old(io)@.len() == 1,
            old(self).wf(),
        ensures
            final(io).shape() == old(io).shape(),
            slot_plays(
                *math,
                *old(self),
                normalize,
                old(io)@[0],
                final(io)@[0],
                *final(self),
            ),
            final(self).identity() == old(self).identity(),
            final(self).latency() == old(self).latency(),
            final(self).wf(),
    {
        broadcast use StageIo::view_has_the_shape;

        let ghost input = io@;
        assert(input =~= seq![input[0]]);
        match &mut self.resample {
            None => self.core.0.process(io),
            Some(queues) => queues.process(&mut self.core, io),
        }
        let ghost modelled = io@;
        proof {
            io.view_has_the_shape();
            assert(modelled =~= seq![modelled[0]]);
            assert(model_plays(*old(self), input[0], modelled[0], *self));
        }
        let target: Sample = self.normalize_target(math, normalize);
        assert(aims(*math, *old(self), normalize, target));
        self.normalize_gain.0.apply(ParamChange { id: self.gain_target, value: target });
        let ghost gain = self.normalize_gain;
        self.normalize_gain.0.process(io);
        proof {
            io.view_has_the_shape();
            assert(io@ =~= seq![io@[0]]);
            let told = ParamChange { id: self.gain_target, value: target };
            old(self).normalize_gain.hears_one(told, gain);
            assert(runs(gain, modelled[0], io@[0], self.normalize_gain));
            assert(gain_plays(*old(self), target, modelled[0], io@[0], *self));
        }
    }

    /// The delay the slot adds, in samples.
    pub fn latency_samples(&self) -> (samples: u32)
        ensures
            samples == self.latency(),
    {
        match &self.resample {
            None => 0,
            Some(queues) => queues.latency_samples(),
        }
    }

    /// What a reset comes to: a converted slot's converters and queues are cleared, and a slot
    /// without any is left alone.
    pub open spec fn resets_to(&self, after: NamSlot) -> bool {
        match (self.resample, after.resample) {
            (None, None) => after == *self,
            (Some(queues), Some(left)) => {
                &&& after == (NamSlot { core: after.core, resample: after.resample, ..*self })
                &&& self.core.clears_to(after.core)
                &&& queues.resets_to(left)
            },
            _ => false,
        }
    }

    /// Clears a converted slot's pipeline: its converters and its queues. A slot without one is
    /// left alone.
    pub fn reset(&mut self)
        requires
            old(self).wf(),
        ensures
            final(self).wf(),
            old(self).resets_to(*final(self)),
    {
        match &mut self.resample {
            None => {},
            Some(queues) => {
                self.core.0.reset();
                queues.reset();
            },
        }
    }
}

/// The ids the stage answers to and reports under.
#[derive(Clone, Copy, Debug, PartialEq, Eq, Structural)]
pub struct NamIds {
    /// Switches the stage on and off.
    pub enabled: ParamId,
    /// Switches loudness normalisation on and off.
    pub normalize_enabled: ParamId,
    /// The user's trim on top of the normalisation gain, in decibels.
    pub normalize_offset_db: ParamId,
    /// Reports whether a model is in service.
    pub loaded: u32,
    /// Reports whether a handover is under way.
    pub handover_active: u32,
}

/// Builds a [`NamStage`] with nothing loaded.
pub struct NamPrep<A: SampleMath> {
    /// The arithmetic of the blends.
    pub math: A,
    /// The ids the stage answers to and reports under.
    pub ids: NamIds,
    /// Whether the stage starts out switched on.
    pub enabled: bool,
    /// Whether loudness normalisation starts out switched on.
    pub normalize_enabled: bool,
    /// The trim on top of the normalisation gain to start out with, in decibels.
    pub normalize_offset_db: Sample,
}

impl<A: SampleMath> StagePrep for NamPrep<A> {
    type Prepared = NamStage<A>;

    open spec fn prepares(self, ctx: PrepareContext, stage: NamStage<A>) -> bool {
        &&& stage.wf()
        &&& stage.math == self.math
        &&& stage.ids == self.ids
        &&& stage.enabled == self.enabled
        &&& stage.normalize_enabled == self.normalize_enabled
        &&& stage.normalize_offset_db == self.normalize_offset_db
        &&& stage.handover == Handover::<NamSlot>::empty(ctx)
        &&& stage.blend.mix == Sample::zero()
        &&& stage.blend.target == Sample::zero()
        &&& call_ensures(
            A::one_pole_coefficient,
            (&self.math, BYPASS_CROSSFADE_TIME_CONSTANT_MS, ctx.rate()),
            stage.blend.coefficient,
        )
    }

    fn prepare(self, ctx: &PrepareContext) -> (stage: Result<NamStage<A>, PrepareError>)
        ensures
            stage is Ok,
    {
        let coefficient: Sample = self.math.one_pole_coefficient(
            BYPASS_CROSSFADE_TIME_CONSTANT_MS,
            ctx.sample_rate().hz(),
        );
        let frames: usize = ctx.max_block_size();
        Ok(
            NamStage {
                math: self.math,
                ids: self.ids,
                handover: Handover::new(*ctx),
                enabled: self.enabled,
                normalize_enabled: self.normalize_enabled,
                normalize_offset_db: self.normalize_offset_db,
                blend: BypassBlend { mix: Sample::zero(), target: Sample::zero(), coefficient },
                dry: StageIo::zeroed(ctx.channel_config().output_channels(), frames),
                outgoing: StageIo::zeroed(1, frames),
                incoming: StageIo::zeroed(1, frames),
            },
        )
    }
}

/// The amp-model stage.
pub struct NamStage<A: SampleMath> {
    /// The arithmetic of the blends.
    pub math: A,
    /// The ids the stage answers to and reports under.
    pub ids: NamIds,
    /// The two slots, and the fade between them.
    pub handover: Handover<NamSlot>,
    /// Whether the stage is switched on.
    pub enabled: bool,
    /// Whether loudness normalisation is switched on.
    pub normalize_enabled: bool,
    /// The user's trim on top of the normalisation gain, in decibels.
    pub normalize_offset_db: Sample,
    /// The blend between the stage's input and its output.
    pub blend: BypassBlend,
    /// The block as it came in.
    pub dry: StageIo,
    /// The outgoing slot's output.
    pub outgoing: StageIo,
    /// The incoming slot's output.
    pub incoming: StageIo,
}

/// Whether one side of a handover may turn a block into `output` and be left as `after`: an empty
/// slot passes the block on as it is.
pub open spec fn side_plays<A: SampleMath>(
    math: A,
    slot: Option<Box<NamSlot>>,
    normalize: Normalize,
    input: Seq<Sample>,
    output: Seq<Sample>,
    after: Option<Box<NamSlot>>,
) -> bool {
    match (slot, after) {
        (None, None) => output == input,
        (Some(s), Some(left)) => slot_plays(math, *s, normalize, input, output, *left),
        _ => false,
    }
}

/// What a reset does to one side of a handover.
pub open spec fn side_resets(slot: Option<Box<NamSlot>>, after: Option<Box<NamSlot>>) -> bool {
    match (slot, after) {
        (None, None) => true,
        (Some(s), Some(left)) => s.resets_to(*left),
        _ => false,
    }
}

/// What a fade makes of the two sides: an equal-power blend that moves on by one frame per sample.
pub open spec fn fade_renders<A: SampleMath>(
    math: A,
    fade: Crossfade,
    outgoing: Seq<Sample>,
    incoming: Seq<Sample>,
    output: Seq<Sample>,
) -> bool {
    &&& outgoing.len() == output.len()
    &&& incoming.len() == output.len()
    &&& forall|i: int|
        0 <= i < output.len() ==> faded(
            math,
            outgoing[i],
            incoming[i],
            fade.after(i).progress(),
            fade.total,
            #[trigger] output[i],
        )
}

/// The delay of whatever is in a slot.
pub open spec fn slot_latency(slot: Option<Box<NamSlot>>) -> u32 {
    match slot {
        Some(s) => s.latency(),
        None => 0,
    }
}

impl<A: SampleMath> NamStage<A> {
    /// Every slot is in order, and every buffer carries the largest block.
    pub open spec fn wf(&self) -> bool {
        &&& self.handover.wf()
        &&& self.handover.active matches Some(s) ==> s.wf()
        &&& self.handover.inactive matches Some(s) ==> s.wf()
        &&& self.handover.parked matches Some(p) ==> p.slot.wf()
        &&& self.dry@.len() == self.handover.prepared_for.channels()
        &&& self.dry.shape().1.len() == self.handover.prepared_for.channels()
        &&& self.dry.carries(self.handover.prepared_for.max_frames() as nat)
        &&& self.outgoing@.len() == 1
        &&& self.outgoing.carries(self.handover.prepared_for.max_frames() as nat)
        &&& self.incoming@.len() == 1
        &&& self.incoming.carries(self.handover.prepared_for.max_frames() as nat)
    }

    /// Whether the stage has room for a block of this many frames and channels.
    pub open spec fn takes(&self, frames: nat, channels: nat) -> bool {
        &&& frames <= self.handover.prepared_for.max_frames()
        &&& 1 <= channels <= self.handover.prepared_for.channels()
    }

    /// How loudness normalisation is set.
    pub open spec fn normalize(&self) -> Normalize {
        Normalize { enabled: self.normalize_enabled, offset_db: self.normalize_offset_db }
    }

    /// Whether one side of the handover may turn a block into `output` and be left as `after`.
    pub open spec fn side(
        &self,
        slot: Option<Box<NamSlot>>,
        input: Seq<Sample>,
        output: Seq<Sample>,
        after: Option<Box<NamSlot>>,
    ) -> bool {
        side_plays(self.math, slot, self.normalize(), input, output, after)
    }

    /// Whether the slots, and the fade between them, may turn a block of one channel into `output`,
    /// and the slots be left as `active` and `inactive`.
    pub open spec fn wet_plays(
        &self,
        input: Seq<Sample>,
        output: Seq<Sample>,
        active: Option<Box<NamSlot>>,
        inactive: Option<Box<NamSlot>>,
    ) -> bool {
        match self.handover.fade {
            None => {
                &&& self.side(self.handover.active, input, output, active)
                &&& inactive == self.handover.inactive
            },
            Some(fade) => if fade.remaining == 0 {
                &&& active == self.handover.active
                &&& self.side(self.handover.inactive, input, output, inactive)
            } else {
                exists|outgoing: Seq<Sample>, incoming: Seq<Sample>|
                    {
                        &&& self.side(self.handover.active, input, outgoing, active)
                        &&& self.side(self.handover.inactive, input, incoming, inactive)
                        &&& #[trigger] fade_renders(self.math, fade, outgoing, incoming, output)
                    }
            },
        }
    }

    /// Where the bypass blend is heading: open if the stage is on and there is anything to hear.
    pub open spec fn wanted(&self) -> Sample {
        Sample::of_flag(self.enabled && self.handover.sounds())
    }

    fn retarget(&mut self)
        ensures
            *final(self) == (NamStage {
                blend: BypassBlend { target: old(self).wanted(), ..old(self).blend },
                ..*old(self)
            }),
    {
        let open: bool = self.enabled && self.handover.is_sounding();
        self.blend.target = Sample::from_flag(open);
    }

    /// Puts the dry signal into `scratch` and runs one side of the handover over it.
    fn run_side(
        math: &A,
        slot: &mut Option<Box<NamSlot>>,
        dry: &StageIo,
        scratch: &mut StageIo,
        normalize: Normalize,
    )
        requires
            dry.wf(),
            dry@.len() >= 1,
            old(scratch)@.len() == 1,
            old(scratch).carries(dry.length()),
            *old(slot) matches Some(s) ==> s.wf(),
        ensures
            final(scratch).wf(),
            final(scratch).length() == dry.length(),
            final(scratch).shape().1 == old(scratch).shape().1,
            final(scratch)@.len() == 1,
            side_plays(
                *math,
                *old(slot),
                normalize,
                dry@[0],
                final(scratch)@[0],
                *final(slot),
            ),
            occupant(*final(slot)) == occupant(*old(slot)),
            slot_latency(*final(slot)) == slot_latency(*old(slot)),
            *final(slot) matches Some(s) ==> s.wf(),
    {
        broadcast use StageIo::view_has_the_shape;

        scratch.set_frames(dry.frames());
        scratch.copy_channel(0, dry, 0);
        assert(scratch@[0] == dry@[0]);
        if let Some(s) = slot {
            s.process_wet(math, scratch, normalize);
        }
    }

    /// The mono core: writes the processed result of the block in `dry` to channel 0 of `io`, moves
    /// the fade on, and completes the handover if that ended it.
    fn process_channel0(&mut self, io: &mut StageIo)
        requires
            old(self).wf(),
            old(io).wf(),
            old(io)@.len() >= 1,
            old(self).dry.wf(),
            old(self).dry.length() == old(io).length(),
            old(io).length() <= old(self).handover.prepared_for.max_frames(),
        ensures
            final(self).wf(),
            final(self).math == old(self).math,
            final(self).ids == old(self).ids,
            final(self).enabled == old(self).enabled,
            final(self).normalize_enabled == old(self).normalize_enabled,
            final(self).normalize_offset_db == old(self).normalize_offset_db,
            final(self).dry == old(self).dry,
            final(self).blend == (BypassBlend { target: final(self).wanted(), ..old(self).blend }),
            old(self).handover.moves_on_to(final(self).handover, old(io).length() as int),
            final(io).shape() == old(io).shape(),
            final(io)@.len() == old(io)@.len(),
            forall|ch: int|
                1 <= ch < old(io)@.len() ==> #[trigger] final(io)@[ch] == old(io)@[ch],
            exists|active: Option<Box<NamSlot>>, inactive: Option<Box<NamSlot>>|
                {
                    &&& #[trigger] old(self).wet_plays(
                        old(self).dry@[0],
                        final(io)@[0],
                        active,
                        inactive,
                    )
                    &&& final(self).handover == old(self).handover.moved_on(
                        active,
                        inactive,
                        old(io).length() as int,
                    )
                },
            slot_latency(final(self).handover.active) == if old(self).handover.settles_after(
                old(io).length() as int,
            ) {
                slot_latency(old(self).handover.inactive)
            } else {
                slot_latency(old(self).handover.active)
            },
    {
        broadcast use StageIo::view_has_the_shape;

        let normalize = Normalize {
            enabled: self.normalize_enabled,
            offset_db: self.normalize_offset_db,
        };
        match self.handover.fade {
            None => {
                Self::run_side(
                    &self.math,
                    &mut self.handover.active,
                    &self.dry,
                    &mut self.outgoing,
                    normalize,
                );
                io.copy_channel(0, &self.outgoing, 0);
            },
            Some(fade) => {
                if fade.remaining == 0 {
                    Self::run_side(
                        &self.math,
                        &mut self.handover.inactive,
                        &self.dry,
                        &mut self.incoming,
                        normalize,
                    );
                    io.copy_channel(0, &self.incoming, 0);
                } else {
                    Self::run_side(
                        &self.math,
                        &mut self.handover.active,
                        &self.dry,
                        &mut self.outgoing,
                        normalize,
                    );
                    Self::run_side(
                        &self.math,
                        &mut self.handover.inactive,
                        &self.dry,
                        &mut self.incoming,
                        normalize,
                    );
                    let moved: Crossfade = run_fade(
                        &self.math,
                        fade,
                        &self.outgoing,
                        0,
                        &self.incoming,
                        0,
                        io,
                        0,
                    );
                    self.handover.fade = Some(moved);
                }
            },
        }
        assert(old(self).wet_plays(
            old(self).dry@[0],
            io@[0],
            self.handover.active,
            self.handover.inactive,
        ));
        self.handover.settle();
        self.retarget();
    }

    /// Where the bypass blend is heading after a block of `frames` frames.
    pub open spec fn wanted_after(&self, frames: int) -> Sample {
        Sample::of_flag(
            self.enabled && if self.handover.settles_after(frames) {
                self.handover.inactive is Some
            } else {
                self.handover.sounds()
            },
        )
    }

    /// What the stage makes of a block: the slots' result of channel 0, on every channel, blended
    /// against each channel's own input. `end` is where the blend stands afterwards, and `active`
    /// and `inactive` are the slots then.
    pub open spec fn renders(
        &self,
        input: Seq<Seq<Sample>>,
        output: Seq<Seq<Sample>>,
        end: Sample,
        active: Option<Box<NamSlot>>,
        inactive: Option<Box<NamSlot>>,
    ) -> bool {
        exists|wet: Seq<Sample>|
            {
                &&& #[trigger] self.wet_plays(input[0], wet, active, inactive)
                &&& block_blends(
                    self.math,
                    BypassBlend {
                        target: self.wanted_after(input[0].len() as int),
                        ..self.blend
                    },
                    input,
                    Seq::new(input.len(), |ch: int| wet),
                    output,
                    end,
                )
            }
    }

    /// What processing a block comes to: settings stay, the blend and the handover move on.
    pub open spec fn plays(
        &self,
        input: Seq<Seq<Sample>>,
        output: Seq<Seq<Sample>>,
        after: NamStage<A>,
    ) -> bool {
        let frames = input[0].len() as int;
        &&& after.math == self.math
        &&& after.ids == self.ids
        &&& after.enabled == self.enabled
        &&& after.normalize_enabled == self.normalize_enabled
        &&& after.normalize_offset_db == self.normalize_offset_db
        &&& after.blend.coefficient == self.blend.coefficient
        &&& after.blend.target == self.wanted_after(frames)
        &&& self.handover.moves_on_to(after.handover, frames)
        &&& after.latency() == if self.handover.settles_after(frames) {
            slot_latency(self.handover.inactive)
        } else {
            self.latency()
        }
        &&& exists|active: Option<Box<NamSlot>>, inactive: Option<Box<NamSlot>>|
            {
                &&& #[trigger] self.renders(input, output, after.blend.mix, active, inactive)
                &&& after.handover == self.handover.moved_on(active, inactive, frames)
            }
    }

    /// What a reset comes to: only what is in the slots' pipelines changes.
    pub open spec fn resets_to(&self, after: NamStage<A>) -> bool {
        &&& side_resets(self.handover.active, after.handover.active)
        &&& side_resets(self.handover.inactive, after.handover.inactive)
        &&& after == (NamStage {
            handover: Handover {
                active: after.handover.active,
                inactive: after.handover.inactive,
                ..self.handover
            },
            ..*self
        })
    }

    /// What taking an offered resource comes to: a handover towards it begins, or, if it was
    /// prepared for another context, it is parked.
    pub open spec fn accepts(&self, resource: Resource, after: NamStage<A>) -> bool {
        forall|slot: Box<NamSlot>, ctx: PrepareContext|
            resource == #[trigger] Resource::of_nam(slot, ctx) ==> after == (if ctx
                == self.handover.prepared_for {
                self.begun(Some(slot), slot.latency())
            } else {
                NamStage {
                    handover: Handover { parked: Some(Parked { slot, ctx }), ..self.handover },
                    ..*self
                }
            })
    }

    /// The stage with nothing parked.
    pub open spec fn cleared(&self) -> NamStage<A> {
        NamStage { handover: Handover { parked: None, ..self.handover }, ..*self }
    }

    /// Processes one block in place.
    pub fn process(&mut self, io: &mut StageIo)
        requires
            old(self).wf(),
            old(io).wf(),
            old(self).takes(old(io).length(), old(io)@.len()),
        ensures
            final(self).wf(),
            final(io).shape() == old(io).shape(),
            old(self).plays(old(io)@, final(io)@, *final(self)),
    {
        broadcast use StageIo::view_has_the_shape;

        let ghost input = io@;
        proof {
            io.view_has_the_shape();
        }
        self.dry.copy_from(io);
        let ghost captured = *self;
        self.process_channel0(io);
        let ghost wet = io@[0];
        let channels: usize = io.channel_count();
        let mut ch: usize = 1;
        while ch < channels
            invariant
                1 <= ch <= channels,
                channels == io@.len(),
                channels == input.len(),
                io.wf(),
                io.shape() == old(io).shape(),
                forall|c: int| 0 <= c < ch ==> #[trigger] io@[c] == wet,
            decreases channels - ch,
        {
            io.duplicate(0, ch);
            ch = ch + 1;
        }
        let ghost duplicated = io@;
        let ghost blend = self.blend;
        assert(duplicated =~= Seq::new(input.len(), |c: int| wet));
        self.blend.run(&self.math, &self.dry, io);
        proof {
            let (active, inactive) = choose|
                active: Option<Box<NamSlot>>,
                inactive: Option<Box<NamSlot>>,
            |
                {
                    &&& #[trigger] captured.wet_plays(input[0], wet, active, inactive)
                    &&& self.handover == captured.handover.moved_on(
                        active,
                        inactive,
                        input[0].len() as int,
                    )
                };
            assert(captured.wet_plays(input[0], wet, active, inactive));
            assert(old(self).wet_plays(input[0], wet, active, inactive));
            assert(blend.target == old(self).wanted_after(input[0].len() as int));
            assert(block_blends(
                self.math,
                blend,
                input,
                Seq::new(input.len(), |c: int| wet),
                io@,
                self.blend.mix,
            ));
            assert(old(self).renders(input, io@, self.blend.mix, active, inactive));
        }
    }

    /// The delay of the slot in service; a slot still fading in does not count yet.
    pub open spec fn latency(&self) -> u32 {
        slot_latency(self.handover.active)
    }

    /// The delay of the slot in service, in samples.
    pub fn latency_samples(&self) -> (samples: u32)
        ensures
            samples == self.latency(),
    {
        match &self.handover.active {
            Some(slot) => slot.latency_samples(),
            None => 0,
        }
    }

    /// The stage has no tail.
    pub fn tail_samples(&self) -> (samples: u32)
        ensures
            samples == 0,
    {
        0
    }

    /// Clears the pipelines of both slots.
    pub fn reset(&mut self)
        requires
            old(self).wf(),
        ensures
            final(self).wf(),
            old(self).resets_to(*final(self)),
    {
        if let Some(slot) = &mut self.handover.active {
            slot.reset();
        }
        if let Some(slot) = &mut self.handover.inactive {
            slot.reset();
        }
    }

    /// Applies a parameter update, ignoring any parameter the stage does not own.
    pub fn apply(&mut self, change: ParamChange)
        requires
            old(self).wf(),
        ensures
            final(self).wf(),
            *final(self) == old(self).applied(change),
    {
        if change.id == self.ids.enabled {
            self.enabled = change.switches_on();
            self.retarget();
        } else if change.id == self.ids.normalize_enabled {
            self.normalize_enabled = change.switches_on();
        } else if change.id == self.ids.normalize_offset_db {
            self.normalize_offset_db = change.value;
        }
    }

    /// The stage after a parameter update.
    pub open spec fn applied(&self, change: ParamChange) -> NamStage<A> {
        if change.id == self.ids.enabled {
            NamStage {
                enabled: change.on(),
                blend: BypassBlend {
                    target: Sample::of_flag(change.on() && self.handover.sounds()),
                    ..self.blend
                },
                ..*self
            }
        } else if change.id == self.ids.normalize_enabled {
            NamStage { normalize_enabled: change.on(), ..*self }
        } else if change.id == self.ids.normalize_offset_db {
            NamStage { normalize_offset_db: change.value, ..*self }
        } else {
            *self
        }
    }

    /// What the stage reports: whether a model is in service, and whether a handover is under way.
    pub open spec fn readings(&self) -> Seq<TelemetryEntry> {
        seq![
            TelemetryEntry {
                id: self.ids.loaded,
                value: Sample::of_flag(self.handover.active is Some),
            },
            TelemetryEntry {
                id: self.ids.handover_active,
                value: Sample::of_flag(self.handover.fade is Some),
            },
        ]
    }

    /// Writes the stage's present readings into `out`.
    pub fn telemetry(&self, out: &mut TelemetrySink<'_>)
        requires
            old(out).wf(),
        ensures
            final(out).wf(),
            final(out).room() == old(out).room(),
            final(final(out).buffer)@ == final(old(out).buffer)@,
            final(out)@ == newest(old(out)@ + self.readings(), old(out).room()),
    {
        out.push(
            TelemetryEntry {
                id: self.ids.loaded,
                value: Sample::from_flag(self.handover.active.is_some()),
            },
        );
        out.push(
            TelemetryEntry {
                id: self.ids.handover_active,
                value: Sample::from_flag(self.handover.fade.is_some()),
            },
        );
        assert(out@ =~= newest(old(out)@ + self.readings(), old(out).room()));
    }

    /// The stage after a handover towards `incoming` has begun. If nothing was in service, the fade
    /// starts out at the dry signal itself, so the bypass blend is set to where it is heading.
    pub open spec fn begun(&self, incoming: Option<Box<NamSlot>>, hold: u32) -> NamStage<A> {
        let handover = self.handover.started(incoming, hold);
        let target = Sample::of_flag(self.enabled && handover.sounds());
        NamStage {
            handover,
            blend: BypassBlend {
                mix: if self.handover.active is None {
                    target
                } else {
                    self.blend.mix
                },
                target,
                coefficient: self.blend.coefficient,
            },
            ..*self
        }
    }

    /// Opens or aims the bypass blend for a handover that has just begun.
    fn aim(&mut self)
        ensures
            *final(self) == (NamStage {
                blend: BypassBlend {
                    mix: if old(self).handover.active is None {
                        old(self).wanted()
                    } else {
                        old(self).blend.mix
                    },
                    target: old(self).wanted(),
                    coefficient: old(self).blend.coefficient,
                },
                ..*old(self)
            }),
    {
        self.retarget();
        if self.handover.active.is_none() {
            self.blend.mix = self.blend.target;
        }
    }

    /// Begins a handover towards `slot`. The fade is held until the slot's pipeline has filled.
    /// With something already parked there is nowhere to put a displaced slot, so the new one is
    /// handed back and nothing changes.
    pub fn load_model(&mut self, slot: Box<NamSlot>) -> (refused: Option<Box<NamSlot>>)
        requires
            old(self).wf(),
            slot.wf(),
        ensures
            final(self).wf(),
            old(self).handover.parked is Some ==> refused == Some(slot) && *final(self)
                == *old(self),
            old(self).handover.parked is None ==> refused is None && *final(self)
                == old(self).begun(Some(slot), slot.latency()),
    {
        let hold: u32 = slot.latency_samples();
        let refused: Option<Box<NamSlot>> = self.handover.install(slot, hold);
        if refused.is_none() {
            self.aim();
        }
        refused
    }

    /// Begins a handover towards nothing. With something already parked, does nothing.
    fn unload(&mut self)
        requires
            old(self).wf(),
        ensures
            final(self).wf(),
            old(self).handover.parked is Some ==> *final(self) == *old(self),
            old(self).handover.parked is None ==> *final(self) == old(self).begun(None, 0),
    {
        if self.handover.unload() {
            self.aim();
        }
    }

    /// Takes an offered resource of the stage's own kind and begins a handover towards it. One that
    /// was prepared for another context is not installed but parked, to be handed back. Any other
    /// offer is left as it is, and so is one that comes while something is already parked.
    pub fn accept_resource(&mut self, offer: &mut Option<Resource>)
        requires
            old(self).wf(),
        ensures
            final(self).wf(),
            !old(self).welcomes(*old(offer)) ==> *final(self) == *old(self) && *final(offer)
                == *old(offer),
            old(self).welcomes(*old(offer)) ==> *final(offer) == None::<Resource>
                && old(self).accepts(old(offer)->0, *final(self)),
    {
        broadcast use {Resource::made_of_nam, Resource::nam_is_determined};

        match Resource::take_nam(offer) {
            Some((slot, ctx)) => {
                if ctx == self.handover.prepared_for {
                    match self.load_model(slot) {
                        Some(refused) => {
                            *offer = Some(Resource::nam(refused, ctx));
                        },
                        None => {},
                    }
                } else {
                    match self.handover.park(slot, ctx) {
                        Some(refused) => {
                            *offer = Some(Resource::nam(refused, ctx));
                        },
                        None => {},
                    }
                }
            },
            None => {},
        }
    }

    /// Whether an offer is one the stage takes: of its own kind, with nothing parked.
    pub open spec fn welcomes(&self, offer: Option<Resource>) -> bool {
        self.handover.parked is None && (offer matches Some(resource) && resource.belongs_to()
            == ResourceKind::Nam)
    }

    /// Sends what is parked back through `out`, or keeps it if `out` has no room.
    pub fn collect_retired(&mut self, out: &mut RetireSink<'_>)
        requires
            old(self).wf(),
        ensures
            final(self).wf(),
            *final(final(out).ring) == *final(old(out).ring),
            final(out).ring.ring() == old(out).ring.ring(),
            old(self).handover.parked is None ==> {
                &&& *final(self) == *old(self)
                &&& final(out).ring.sent() == old(out).ring.sent()
                &&& final(out).rejected == old(out).rejected
                &&& final(out).ring.known_free() == old(out).ring.known_free()
            },
            old(self).handover.parked matches Some(p) ==> {
                ||| {
                    &&& *final(self) == old(self).cleared()
                    &&& final(out).ring.sent() == old(out).ring.sent().push(
                        Resource::of_nam(p.slot, p.ctx),
                    )
                    &&& final(out).rejected == old(out).rejected
                    &&& final(out).ring.known_free() + 1 >= old(out).ring.known_free()
                }
                ||| {
                    &&& *final(self) == *old(self)
                    &&& final(out).ring.sent() == old(out).ring.sent()
                    &&& final(out).rejected == counted_up(old(out).rejected, 1)
                    &&& old(out).ring.known_free() == 0
                }
            },
    {
        broadcast use {Resource::made_of_nam, Resource::nam_is_determined};

        if let Some(parked) = self.handover.take_parked() {
            match out.push(Resource::nam(parked.slot, parked.ctx)) {
                Ok(()) => {},
                Err(back) => {
                    let mut kept: Option<Resource> = Some(back);
                    if let Some((slot, ctx)) = Resource::take_nam(&mut kept) {
                        self.handover.park(slot, ctx);
                    }
                },
            }
        }
    }

    /// Begins a handover towards nothing, if `kind` is the stage's own.
    pub fn unload_resource(&mut self, kind: ResourceKind)
        requires
            old(self).wf(),
        ensures
            final(self).wf(),
            *final(self) == if kind == ResourceKind::Nam && old(self).handover.parked is None {
                old(self).begun(None, 0)
            } else {
                *old(self)
            },
    {
        if kind == ResourceKind::Nam {
            self.unload();
        }
    }

    /// How many times the resource `id` is held.
    pub open spec fn copies(&self, id: int) -> nat {
        self.handover.copies(id)
    }
}

/// Blends two sides of a handover into one channel of `io`, moving the fade on by one frame per
/// sample, and returns where the fade stands then.
pub fn run_fade<A: SampleMath>(
    math: &A,
    fade: Crossfade,
    outgoing: &StageIo,
    outgoing_channel: usize,
    incoming: &StageIo,
    incoming_channel: usize,
    io: &mut StageIo,
    channel: usize,
) -> (moved: Crossfade)
    requires
        fade.wf(),
        old(io).wf(),
        outgoing.wf(),
        incoming.wf(),
        outgoing.length() == old(io).length(),
        incoming.length() == old(io).length(),
        outgoing_channel < outgoing@.len(),
        incoming_channel < incoming@.len(),
        channel < old(io)@.len(),
    ensures
        moved.wf(),
        moved == fade.after(old(io).length() as int),
        final(io).shape() == old(io).shape(),
        final(io)@.len() == old(io)@.len(),
        forall|ch: int|
            0 <= ch < old(io)@.len() && ch != channel ==> #[trigger] final(io)@[ch] == old(io)@[ch],
        fade_renders(
            *math,
            fade,
            outgoing@[outgoing_channel as int],
            incoming@[incoming_channel as int],
            final(io)@[channel as int],
        ),
{
    broadcast use StageIo::view_has_the_shape;

    let n: usize = io.frames();
    let mut moved: Crossfade = fade;
    proof {
        io.view_has_the_shape();
        outgoing.view_has_the_shape();
        incoming.view_has_the_shape();
    }
    let mut i: usize = 0;
    while i < n
        invariant
            i <= n,
            n == io.length(),
            io.wf(),
            outgoing.wf(),
            incoming.wf(),
            outgoing.length() == n,
            incoming.length() == n,
            outgoing_channel < outgoing@.len(),
            incoming_channel < incoming@.len(),
            channel < io@.len(),
            outgoing@[outgoing_channel as int].len() == n,
            incoming@[incoming_channel as int].len() == n,
            io@[channel as int].len() == n,
            io.shape() == old(io).shape(),
            io@.len() == old(io)@.len(),
            fade.wf(),
            moved.wf(),
            moved == fade.after(i as int),
            forall|ch: int|
                0 <= ch < io@.len() && ch != channel ==> #[trigger] io@[ch] == old(io)@[ch],
            forall|k: int|
                0 <= k < i ==> faded(
                    *math,
                    outgoing@[outgoing_channel as int][k],
                    incoming@[incoming_channel as int][k],
                    fade.after(k).progress(),
                    fade.total,
                    #[trigger] io@[channel as int][k],
                ),
        decreases n - i,
    {
        let from: Sample = outgoing.get(outgoing_channel, i);
        let to: Sample = incoming.get(incoming_channel, i);
        let progress: u32 = moved.taken();
        let out: Sample = math.equal_power(from, to, progress, fade.total);
        assert(faded(*math, from, to, progress, fade.total, out));
        io.set(channel, i, out);
        moved.advance();
        i = i + 1;
    }
    moved
}

/// The first model loaded into a stage that is switched on is heard from the beginning of its own
/// fade: the bypass blend is open at once and has nowhere left to go.
pub proof fn a_first_load_is_heard_at_once<A: SampleMath>(stage: NamStage<A>, slot: Box<NamSlot>)
    requires
        stage.enabled,
        stage.handover.active is None,
    ensures
        stage.begun(Some(slot), slot.latency()).blend.mix == Sample::one(),
        stage.begun(Some(slot), slot.latency()).blend.target == Sample::one(),
        stage.begun(Some(slot), slot.latency()).handover.fade == Some(
            Crossfade::fresh(slot.latency(), stage.handover.length),
        ),
{
}

/// With nothing loaded there is nothing but the input: channel 0 of it is blended against the
/// input, on the way to the input alone, and the stage is left as empty as it was.
pub proof fn with_nothing_loaded_there_is_only_the_input<A: SampleMath>(
    stage: NamStage<A>,
    input: Seq<Seq<Sample>>,
    output: Seq<Seq<Sample>>,
    after: NamStage<A>,
)
    requires
        !stage.handover.sounds(),
        stage.handover.fade is None,
        stage.plays(input, output, after),
    ensures
        after.handover == stage.handover,
        after.blend.target == Sample::zero(),
        block_blends(
            stage.math,
            BypassBlend { target: Sample::zero(), ..stage.blend },
            input,
            Seq::new(input.len(), |ch: int| input[0]),
            output,
            after.blend.mix,
        ),
{
}

/// A stage that is switched off is headed for its dry input, whatever it holds.
pub proof fn a_stage_that_is_off_heads_for_dry<A: SampleMath>(
    stage: NamStage<A>,
    input: Seq<Seq<Sample>>,
    output: Seq<Seq<Sample>>,
    after: NamStage<A>,
)
    requires
        !stage.enabled,
        stage.plays(input, output, after),
    ensures
        after.blend.target == Sample::zero(),
        !after.enabled,
{
}

} // verus!
