//! The cabinet stage: up to two impulse-response slots with an equal-power handover between them,
//! shaped by the cut filters and the level, behind the stage's own click-free bypass blend.
//!
//! A slot is fed channel 0 and produces one or two channels of its own; a one-channel response
//! sounds on every physical channel.

use vstd::prelude::*;

use crate::command::{counted_up, RetireSink};
use crate::math::SampleMath;
use crate::param::{ParamChange, ParamId};
use crate::prepare::{PrepareContext, PrepareError};
use crate::resource::{Resource, ResourceKind};
use crate::sample::Sample;
use crate::stage::{BoxedStage, Stage, StagePrep};
use crate::stage_io::StageIo;
use crate::stages::bypass::{block_blends, BypassBlend, BYPASS_CROSSFADE_TIME_CONSTANT_MS};
use crate::stages::filter::{brief, briefing, one_block, one_block_of_samples, FilterPort};
use crate::stages::handover::{occupant, Crossfade, Handover, Identified, Parked};
use crate::stages::ir_filters::{both_hear, IrChannel, IrFilters, IrRetarget, IrShaping};
use crate::stages::nam::{fade_renders, run_fade};
use crate::telemetry::{newest, TelemetryEntry, TelemetrySink};

verus! {

/// Which of the produced channels a physical channel sounds: its own, or the last there is.
pub open spec fn wet_channel(ch: int, produced_channels: int) -> int {
    if ch < produced_channels {
        ch
    } else {
        produced_channels - 1
    }
}

/// Which of the produced channels a physical channel sounds.
pub fn wet_channel_index(ch: usize, produced_channels: usize) -> (index: usize)
    requires
        produced_channels >= 1,
    ensures
        index == wet_channel(ch as int, produced_channels as int),
        index < produced_channels,
{
    if ch < produced_channels {
        ch
    } else {
        produced_channels - 1
    }
}

/// One prepared impulse response: the processor that convolves with it, and a buffer for what it
/// produces.
pub struct IrSlot {
    /// Convolves. It is fed the same input on each of its channels.
    pub core: BoxedStage,
    /// What it has produced, one channel per channel of the response.
    pub wet: StageIo,
}

impl Identified for IrSlot {
    open spec fn identity(&self) -> int {
        self.core.0.identity()
    }
}

impl IrSlot {
    /// The slot produces something, and has room for blocks of up to `frames` frames.
    pub open spec fn fits(&self, frames: nat) -> bool {
        self.wet@.len() >= 1 && self.wet.shape().1.len() == self.wet@.len() && self.wet.carries(
            frames,
        )
    }

    /// Whether the slot may turn a block into `output`, one channel per channel of its response,
    /// and be left as `after`.
    pub open spec fn plays(
        &self,
        input: Seq<Sample>,
        output: Seq<Seq<Sample>>,
        after: IrSlot,
    ) -> bool {
        &&& output.len() == self.wet@.len()
        &&& self.core.passes(Seq::new(self.wet@.len(), |ch: int| input), output, after.core)
        &&& after.wet@ == output
    }

    /// Wraps a processor for a response of `channels` channels, for blocks of up to
    /// `max_block_size` frames.
    pub fn new(core: BoxedStage, channels: usize, max_block_size: usize) -> (slot: IrSlot)
        requires
            channels >= 1,
        ensures
            slot.fits(max_block_size as nat),
            slot.core == core,
            slot.wet@.len() == channels,
    {
        IrSlot { core, wet: StageIo::zeroed(channels, max_block_size) }
    }

    /// How many channels the slot produces.
    pub fn channel_count(&self) -> (n: usize)
        ensures
            n == self.wet@.len(),
    {
        self.wet.channel_count()
    }

    /// How long the response goes on sounding, in samples.
    pub open spec fn tail(&self) -> u32 {
        self.core.0.tail()
    }

    /// How long the response goes on sounding, in samples.
    pub fn tail_samples(&self) -> (samples: u32)
        ensures
            samples == self.tail(),
    {
        self.core.0.tail_samples()
    }

    /// Convolves channel 0 of `dry`, leaving the result in `wet`.
    pub fn process_wet(&mut self, dry: &StageIo)
        requires
            dry.wf(),
            dry@.len() >= 1,
            old(self).fits(dry.length()),
        ensures
            final(self).wet.wf(),
            final(self).wet.length() == dry.length(),
            final(self).wet.shape().1 == old(self).wet.shape().1,
            old(self).plays(dry@[0], final(self).wet@, *final(self)),
    {
        broadcast use StageIo::view_has_the_shape;

        self.wet.set_frames(dry.frames());
        let ghost shape = self.wet.shape();
        let channels: usize = self.wet.channel_count();
        let mut ch: usize = 0;
        while ch < channels
            invariant
                ch <= channels,
                channels == self.wet@.len(),
                channels == old(self).wet@.len(),
                dry.wf(),
                dry@.len() >= 1,
                self.wet.wf(),
                self.wet.shape() == shape,
                shape.0 == dry.length(),
                shape.1 == old(self).wet.shape().1,
                self.core == old(self).core,
                forall|c: int| 0 <= c < ch ==> #[trigger] self.wet@[c] == dry@[0],
            decreases channels - ch,
        {
            self.wet.copy_channel(ch, dry, 0);
            ch = ch + 1;
        }
        assert(self.wet@ =~= Seq::new(channels as nat, |c: int| dry@[0]));
        self.core.0.process(&mut self.wet);
        proof {
            self.wet.view_has_the_shape();
        }
    }
}

/// Whether one side of a handover may turn a block into `output` and be left as `after`: an empty
/// slot passes the block on as one channel.
pub open spec fn side_plays(
    slot: Option<Box<IrSlot>>,
    input: Seq<Sample>,
    output: Seq<Seq<Sample>>,
    after: Option<Box<IrSlot>>,
) -> bool {
    match (slot, after) {
        (None, None) => output == seq![input],
        (Some(s), Some(left)) => s.plays(input, output, *left),
        _ => false,
    }
}

/// Whether `output` sounds, on each physical channel, the produced channel that belongs to it.
pub open spec fn spreads(produced: Seq<Seq<Sample>>, output: Seq<Seq<Sample>>) -> bool {
    forall|ch: int|
        0 <= ch < output.len() ==> #[trigger] output[ch] == produced[wet_channel(
            ch,
            produced.len() as int,
        )]
}

/// Whether one slot on its own may turn a block into `output` and be left as `after`. An empty one
/// leaves every channel as it is.
pub open spec fn alone_plays(
    slot: Option<Box<IrSlot>>,
    input: Seq<Seq<Sample>>,
    output: Seq<Seq<Sample>>,
    after: Option<Box<IrSlot>>,
) -> bool {
    match (slot, after) {
        (None, None) => output == input,
        (Some(s), Some(left)) => exists|produced: Seq<Seq<Sample>>|
            s.plays(input[0], produced, *left) && #[trigger] spreads(produced, output),
        _ => false,
    }
}

/// What a fade makes of the two sides, on each physical channel.
pub open spec fn channels_fade<A: SampleMath>(
    math: A,
    fade: Crossfade,
    outgoing: Seq<Seq<Sample>>,
    incoming: Seq<Seq<Sample>>,
    output: Seq<Seq<Sample>>,
) -> bool {
    forall|ch: int|
        0 <= ch < output.len() ==> fade_renders(
            math,
            fade,
            outgoing[wet_channel(ch, outgoing.len() as int)],
            incoming[wet_channel(ch, incoming.len() as int)],
            #[trigger] output[ch],
        )
}

/// How long whatever is in a slot goes on sounding.
pub open spec fn slot_tail(slot: Option<Box<IrSlot>>) -> u32 {
    match slot {
        Some(s) => s.tail(),
        None => 0,
    }
}

/// The ids the stage answers to and reports under.
#[derive(Clone, Copy, Debug, PartialEq, Eq, Structural)]
pub struct IrIds {
    /// Switches the stage on and off.
    pub enabled: ParamId,
    /// The level, in decibels.
    pub level_db: ParamId,
    /// Switches the low cut on and off.
    pub low_cut_enabled: ParamId,
    /// The low cut's corner frequency.
    pub low_cut_freq_hz: ParamId,
    /// Switches the high cut on and off.
    pub high_cut_enabled: ParamId,
    /// The high cut's corner frequency.
    pub high_cut_freq_hz: ParamId,
    /// Reports whether a response is in service.
    pub loaded: u32,
    /// Reports whether a handover is under way.
    pub handover_active: u32,
}

/// Builds an [`IrStage`] with nothing loaded.
pub struct IrPrep<A: SampleMath> {
    /// The arithmetic of the blends.
    pub math: A,
    /// The ids the stage answers to and reports under.
    pub ids: IrIds,
    /// Whether the stage starts out switched on.
    pub enabled: bool,
    /// The settings the filters and the level start out with.
    pub filters: IrFilters,
    /// How the filters are told what to become.
    pub port: FilterPort,
    /// The parameter by which the level is told its target.
    pub level_target: ParamId,
    /// The filters, as yet without an effect, and the level.
    pub shaping: IrShaping,
}

impl<A: SampleMath> StagePrep for IrPrep<A> {
    type Prepared = IrStage<A>;

    /// The filters have been told to jump to what the settings call for: there is nothing yet for a
    /// jump to click against.
    open spec fn prepares(self, ctx: PrepareContext, stage: IrStage<A>) -> bool {
        &&& stage.wf()
        &&& stage.math == self.math
        &&& stage.ids == self.ids
        &&& stage.enabled == self.enabled
        &&& stage.filters == self.filters
        &&& stage.port == self.port
        &&& stage.level_target == self.level_target
        &&& both_hear(
            self.shaping.first.low_cut,
            self.shaping.second.low_cut,
            briefing(self.port, self.filters.low_cut(), 0),
            stage.shaping.first.low_cut,
            stage.shaping.second.low_cut,
        )
        &&& both_hear(
            self.shaping.first.high_cut,
            self.shaping.second.high_cut,
            briefing(self.port, self.filters.high_cut(), 0),
            stage.shaping.first.high_cut,
            stage.shaping.second.high_cut,
        )
        &&& both_hear(
            self.shaping.first.level,
            self.shaping.second.level,
            seq![ParamChange { id: self.level_target, value: self.filters.level_db }],
            stage.shaping.first.level,
            stage.shaping.second.level,
        )
        &&& stage.handover == Handover::<IrSlot>::empty(ctx)
        &&& stage.blend.mix == Sample::zero()
        &&& stage.blend.target == Sample::zero()
        &&& call_ensures(
            A::one_pole_coefficient,
            (&self.math, BYPASS_CROSSFADE_TIME_CONSTANT_MS, ctx.rate()),
            stage.blend.coefficient,
        )
    }

    fn prepare(self, ctx: &PrepareContext) -> (stage: Result<IrStage<A>, PrepareError>)
        ensures
            stage is Ok,
    {
        let coefficient: Sample = self.math.one_pole_coefficient(
            BYPASS_CROSSFADE_TIME_CONSTANT_MS,
            ctx.sample_rate().hz(),
        );
        let mut stage = IrStage {
            math: self.math,
            ids: self.ids,
            handover: Handover::new(*ctx),
            enabled: self.enabled,
            blend: BypassBlend { mix: Sample::zero(), target: Sample::zero(), coefficient },
            dry: StageIo::zeroed(ctx.channel_config().output_channels(), ctx.max_block_size()),
            filters: self.filters,
            port: self.port,
            level_target: self.level_target,
            shaping: self.shaping,
            scratch: StageIo::zeroed(1, ctx.max_block_size()),
        };
        stage.retarget_low_cut(0);
        stage.retarget_high_cut(0);
        stage.retarget_level();
        Ok(stage)
    }
}

/// The cabinet stage.
pub struct IrStage<A: SampleMath> {
    /// The arithmetic of the blends.
    pub math: A,
    /// The ids the stage answers to and reports under.
    pub ids: IrIds,
    /// The two slots, and the fade between them.
    pub handover: Handover<IrSlot>,
    /// Whether the stage is switched on.
    pub enabled: bool,
    /// The blend between the stage's input and its output.
    pub blend: BypassBlend,
    /// The block as it came in.
    pub dry: StageIo,
    /// The settings of the filters and the level.
    pub filters: IrFilters,
    /// How the filters are told what to become.
    pub port: FilterPort,
    /// The parameter by which the level is told its target.
    pub level_target: ParamId,
    /// The filters and the level.
    pub shaping: IrShaping,
    /// One channel of the block.
    pub scratch: StageIo,
}

impl<A: SampleMath> IrStage<A> {
    /// Every slot has room for the largest block, and so has the dry buffer.
    pub open spec fn wf(&self) -> bool {
        &&& self.handover.wf()
        &&& self.handover.active matches Some(s) ==> s.fits(
            self.handover.prepared_for.max_frames() as nat,
        )
        &&& self.handover.inactive matches Some(s) ==> s.fits(
            self.handover.prepared_for.max_frames() as nat,
        )
        &&& self.handover.parked matches Some(p) ==> p.slot.fits(p.ctx.max_frames() as nat)
        &&& self.dry@.len() == self.handover.prepared_for.channels()
        &&& self.dry.shape().1.len() == self.handover.prepared_for.channels()
        &&& self.dry.carries(self.handover.prepared_for.max_frames() as nat)
        &&& self.scratch.shape().1.len() == 1
        &&& self.scratch@.len() == 1
        &&& self.scratch.carries(self.handover.prepared_for.max_frames() as nat)
    }

    /// Whether the stage has room for a block of this many frames and channels.
    pub open spec fn takes(&self, frames: nat, channels: nat) -> bool {
        &&& frames <= self.handover.prepared_for.max_frames()
        &&& 1 <= channels <= self.handover.prepared_for.channels()
    }

    /// Whether the slots, and the fade between them, may turn a block into `output`, and the slots
    /// be left as `active` and `inactive`.
    pub open spec fn wet_plays(
        &self,
        input: Seq<Seq<Sample>>,
        output: Seq<Seq<Sample>>,
        active: Option<Box<IrSlot>>,
        inactive: Option<Box<IrSlot>>,
    ) -> bool {
        match self.handover.fade {
            None => {
                &&& alone_plays(self.handover.active, input, output, active)
                &&& inactive == self.handover.inactive
            },
            Some(fade) => if fade.remaining == 0 {
                &&& active == self.handover.active
                &&& alone_plays(self.handover.inactive, input, output, inactive)
            } else {
                exists|outgoing: Seq<Seq<Sample>>, incoming: Seq<Seq<Sample>>|
                    {
                        &&& side_plays(self.handover.active, input[0], outgoing, active)
                        &&& side_plays(self.handover.inactive, input[0], incoming, inactive)
                        &&& #[trigger] channels_fade(self.math, fade, outgoing, incoming, output)
                    }
            },
        }
    }

    /// Where the bypass blend is heading: open if the stage is on and there is anything to hear.
    pub open spec fn wanted(&self) -> Sample {
        Sample::of_flag(self.enabled && self.handover.sounds())
    }

    fn retarget(&mut self)
        ensures
            *final(self) == (IrStage {
                blend: BypassBlend { target: old(self).wanted(), ..old(self).blend },
                ..*old(self)
            }),
    {
        let open: bool = self.enabled && self.handover.is_sounding();
        self.blend.target = Sample::from_flag(open);
    }

    /// Runs one side of the handover over channel 0 of `dry`. An empty slot has nothing to run.
    fn run_side(slot: &mut Option<Box<IrSlot>>, dry: &StageIo)
        requires
            dry.wf(),
            dry@.len() >= 1,
            *old(slot) matches Some(s) ==> s.fits(dry.length()),
        ensures
            occupant(*final(slot)) == occupant(*old(slot)),
            *final(slot) matches Some(after) ==> (*old(slot) matches Some(before) ==> {
                &&& after.wet.wf()
                &&& after.wet.length() == dry.length()
                &&& after.wet.shape().1 == before.wet.shape().1
                &&& before.plays(dry@[0], after.wet@, *after)
            }),
    {
        if let Some(s) = slot {
            s.process_wet(dry);
        }
    }

    /// Copies what a slot produced to the physical channels of `io`.
    fn spread(produced: &StageIo, io: &mut StageIo)
        requires
            produced.wf(),
            old(io).wf(),
            produced.length() == old(io).length(),
            produced@.len() >= 1,
        ensures
            final(io).shape() == old(io).shape(),
            final(io)@.len() == old(io)@.len(),
            spreads(produced@, final(io)@),
    {
        broadcast use StageIo::view_has_the_shape;

        let sources: usize = produced.channel_count();
        let channels: usize = io.channel_count();
        let mut ch: usize = 0;
        while ch < channels
            invariant
                ch <= channels,
                channels == io@.len(),
                sources == produced@.len(),
                sources >= 1,
                produced.wf(),
                io.wf(),
                produced.length() == io.length(),
                io.shape() == old(io).shape(),
                io@.len() == old(io)@.len(),
                forall|c: int|
                    0 <= c < ch ==> #[trigger] io@[c] == produced@[wet_channel(
                        c,
                        sources as int,
                    )],
            decreases channels - ch,
        {
            io.copy_channel(ch, produced, wet_channel_index(ch, sources));
            ch = ch + 1;
        }
    }

    /// Fades between what the two sides produced, on each physical channel of `io`, and returns
    /// where the fade stands then.
    fn fade_channels(
        math: &A,
        fade: Crossfade,
        outgoing: &StageIo,
        outgoing_channels: usize,
        incoming: &StageIo,
        incoming_channels: usize,
        io: &mut StageIo,
    ) -> (moved: Crossfade)
        requires
            fade.wf(),
            outgoing.wf(),
            incoming.wf(),
            old(io).wf(),
            outgoing.length() == old(io).length(),
            incoming.length() == old(io).length(),
            1 <= outgoing_channels <= outgoing@.len(),
            1 <= incoming_channels <= incoming@.len(),
            old(io)@.len() >= 1,
        ensures
            moved.wf(),
            moved == fade.after(old(io).length() as int),
            final(io).shape() == old(io).shape(),
            final(io)@.len() == old(io)@.len(),
            forall|ch: int|
                0 <= ch < final(io)@.len() ==> fade_renders(
                    *math,
                    fade,
                    outgoing@[wet_channel(ch, outgoing_channels as int)],
                    incoming@[wet_channel(ch, incoming_channels as int)],
                    #[trigger] final(io)@[ch],
                ),
    {
        let channels: usize = io.channel_count();
        let mut moved: Crossfade = fade;
        let mut ch: usize = 0;
        while ch < channels
            invariant
                ch <= channels,
                channels >= 1,
                channels == io@.len(),
                fade.wf(),
                outgoing.wf(),
                incoming.wf(),
                io.wf(),
                outgoing.length() == io.length(),
                incoming.length() == io.length(),
                1 <= outgoing_channels <= outgoing@.len(),
                1 <= incoming_channels <= incoming@.len(),
                io.shape() == old(io).shape(),
                io@.len() == old(io)@.len(),
                ch >= 1 ==> moved.wf() && moved == fade.after(io.length() as int),
                forall|c: int|
                    0 <= c < ch ==> fade_renders(
                        *math,
                        fade,
                        outgoing@[wet_channel(c, outgoing_channels as int)],
                        incoming@[wet_channel(c, incoming_channels as int)],
                        #[trigger] io@[c],
                    ),
            decreases channels - ch,
        {
            moved = run_fade(
                math,
                fade,
                outgoing,
                wet_channel_index(ch, outgoing_channels),
                incoming,
                wet_channel_index(ch, incoming_channels),
                io,
                ch,
            );
            ch = ch + 1;
        }
        moved
    }

    /// Writes what the slots make of the block in `dry` to `io`, moves the fade on, and completes
    /// the handover if that ended it.
    fn process_wet(&mut self, io: &mut StageIo)
        requires
            old(self).wf(),
            old(io).wf(),
            old(self).takes(old(io).length(), old(io)@.len()),
            old(self).dry.wf(),
            old(self).dry.length() == old(io).length(),
            forall|ch: int|
                0 <= ch < old(io)@.len() ==> #[trigger] old(self).dry@[ch] == old(io)@[ch],
        ensures
            final(self).wf(),
            final(self).math == old(self).math,
            final(self).ids == old(self).ids,
            final(self).enabled == old(self).enabled,
            final(self).filters == old(self).filters,
            final(self).port == old(self).port,
            final(self).level_target == old(self).level_target,
            final(self).shaping == old(self).shaping,
            final(self).scratch == old(self).scratch,
            final(self).dry == old(self).dry,
            final(self).blend == (BypassBlend { target: final(self).wanted(), ..old(self).blend }),
            old(self).handover.moves_on_to(final(self).handover, old(io).length() as int),
            final(io).shape() == old(io).shape(),
            final(io)@.len() == old(io)@.len(),
            exists|active: Option<Box<IrSlot>>, inactive: Option<Box<IrSlot>>|
                {
                    &&& #[trigger] old(self).wet_plays(old(io)@, final(io)@, active, inactive)
                    &&& final(self).handover == old(self).handover.moved_on(
                        active,
                        inactive,
                        old(io).length() as int,
                    )
                },
    {
        broadcast use StageIo::view_has_the_shape;

        match self.handover.fade {
            None => {
                Self::run_side(&mut self.handover.active, &self.dry);
                if let Some(slot) = &self.handover.active {
                    Self::spread(&slot.wet, io);
                }
            },
            Some(fade) => {
                if fade.remaining == 0 {
                    Self::run_side(&mut self.handover.inactive, &self.dry);
                    if let Some(slot) = &self.handover.inactive {
                        Self::spread(&slot.wet, io);
                    }
                } else {
                    Self::run_side(&mut self.handover.active, &self.dry);
                    Self::run_side(&mut self.handover.inactive, &self.dry);
                    let (outgoing, outgoing_channels): (&StageIo, usize) =
                        match &self.handover.active {
                        Some(slot) => (&slot.wet, slot.channel_count()),
                        None => (&self.dry, 1),
                    };
                    let (incoming, incoming_channels): (&StageIo, usize) =
                        match &self.handover.inactive {
                        Some(slot) => (&slot.wet, slot.channel_count()),
                        None => (&self.dry, 1),
                    };
                    let moved: Crossfade = Self::fade_channels(
                        &self.math,
                        fade,
                        outgoing,
                        outgoing_channels,
                        incoming,
                        incoming_channels,
                        io,
                    );
                    proof {
                        let from = outgoing@.take(outgoing_channels as int);
                        let to = incoming@.take(incoming_channels as int);
                        assert(side_plays(
                            old(self).handover.active,
                            old(io)@[0],
                            from,
                            self.handover.active,
                        )) by {
                            if old(self).handover.active is Some {
                                assert(from =~= outgoing@);
                            } else {
                                assert(from =~= seq![old(io)@[0]]);
                            }
                        }
                        assert(side_plays(
                            old(self).handover.inactive,
                            old(io)@[0],
                            to,
                            self.handover.inactive,
                        )) by {
                            if old(self).handover.inactive is Some {
                                assert(to =~= incoming@);
                            } else {
                                assert(to =~= seq![old(io)@[0]]);
                            }
                        }
                        assert(channels_fade(self.math, fade, from, to, io@));
                    }
                    self.handover.fade = Some(moved);
                }
            },
        }
        assert(old(self).wet_plays(
            old(io)@,
            io@,
            self.handover.active,
            self.handover.inactive,
        ));
        self.handover.settle();
        self.retarget();
    }

    /// Where the bypass blend is heading after a block of `frames` frames.
    pub open spec fn wanted_after(&self, frames: int) -> Sample {
        Sample::of_flag(
            self.enabled && if self.handover.settles_after(frames) {
                self.handover.inactive is Some
            } else {
                self.handover.sounds()
            },
        )
    }

    /// What the stage makes of a block: the slots' result, shaped, blended against the input.
    /// `end` is where the blend stands afterwards, `active` and `inactive` are the slots then, and
    /// `shaping` the filters and the level.
    pub open spec fn renders(
        &self,
        input: Seq<Seq<Sample>>,
        output: Seq<Seq<Sample>>,
        end: Sample,
        active: Option<Box<IrSlot>>,
        inactive: Option<Box<IrSlot>>,
        shaping: IrShaping,
    ) -> bool {
        exists|wet: Seq<Seq<Sample>>, shaped: Seq<Seq<Sample>>|
            {
                &&& self.wet_plays(input, wet, active, inactive)
                &&& #[trigger] self.shaping.pass(wet, shaped, shaping)
                &&& block_blends(
                    self.math,
                    BypassBlend {
                        target: self.wanted_after(input[0].len() as int),
                        ..self.blend
                    },
                    input,
                    shaped,
                    output,
                    end,
                )
            }
    }

    /// What processing a block comes to: settings stay, the blend and the handover move on.
    pub open spec fn plays(
        &self,
        input: Seq<Seq<Sample>>,
        output: Seq<Seq<Sample>>,
        after: IrStage<A>,
    ) -> bool {
        let frames = input[0].len() as int;
        &&& after.math == self.math
        &&& after.ids == self.ids
        &&& after.enabled == self.enabled
        &&& after.filters == self.filters
        &&& after.port == self.port
        &&& after.level_target == self.level_target
        &&& after.blend.coefficient == self.blend.coefficient
        &&& after.blend.target == self.wanted_after(frames)
        &&& self.handover.moves_on_to(after.handover, frames)
        &&& exists|active: Option<Box<IrSlot>>, inactive: Option<Box<IrSlot>>|
            {
                &&& #[trigger] self.renders(
                    input,
                    output,
                    after.blend.mix,
                    active,
                    inactive,
                    after.shaping,
                )
                &&& after.handover == self.handover.moved_on(active, inactive, frames)
            }
    }

    /// What a reset comes to: the filters are cleared.
    pub open spec fn resets_to(&self, after: IrStage<A>) -> bool {
        &&& after == (IrStage { shaping: after.shaping, ..*self })
        &&& self.shaping.first.clears_to(after.shaping.first)
        &&& self.shaping.second.clears_to(after.shaping.second)
    }

    /// Over how many samples filters move to a new target: one largest block.
    pub open spec fn ramp(&self) -> u32 {
        one_block(self.handover.prepared_for.max_frames())
    }

    /// Whether the low cuts have been told, once more, to become what the settings call for.
    pub open spec fn low_cut_moved(&self, ramp_samples: u32, after: IrShaping) -> bool {
        both_hear(
            self.shaping.first.low_cut,
            self.shaping.second.low_cut,
            briefing(self.port, self.filters.low_cut(), ramp_samples),
            after.first.low_cut,
            after.second.low_cut,
        )
    }

    /// Whether the high cuts have been told, once more, to become what the settings call for.
    pub open spec fn high_cut_moved(&self, ramp_samples: u32, after: IrShaping) -> bool {
        both_hear(
            self.shaping.first.high_cut,
            self.shaping.second.high_cut,
            briefing(self.port, self.filters.high_cut(), ramp_samples),
            after.first.high_cut,
            after.second.high_cut,
        )
    }

    /// Whether the levels have been told their target once more.
    pub open spec fn level_moved(&self, after: IrShaping) -> bool {
        both_hear(
            self.shaping.first.level,
            self.shaping.second.level,
            seq![ParamChange { id: self.level_target, value: self.filters.level_db }],
            after.first.level,
            after.second.level,
        )
    }

    /// What a parameter update comes to: the switch changes where the blend is heading, a setting
    /// of a filter or of the level is taken over and passed on to it, and anything else is ignored.
    pub open spec fn applies(&self, change: ParamChange, after: IrStage<A>) -> bool {
        if change.id == self.ids.enabled {
            after == (IrStage {
                enabled: change.on(),
                blend: BypassBlend {
                    target: Sample::of_flag(change.on() && self.handover.sounds()),
                    ..self.blend
                },
                ..*self
            })
        } else {
            let (filters, moved) = self.filters.changed(self.ids, change);
            let taken_over = IrStage { filters, ..*self };
            &&& after == (IrStage { shaping: after.shaping, ..taken_over })
            &&& if moved == IrRetarget::LowCut {
                taken_over.low_cut_moved(self.ramp(), after.shaping)
            } else {
                &&& after.shaping.first.low_cut == self.shaping.first.low_cut
                &&& after.shaping.second.low_cut == self.shaping.second.low_cut
            }
            &&& if moved == IrRetarget::HighCut {
                taken_over.high_cut_moved(self.ramp(), after.shaping)
            } else {
                &&& after.shaping.first.high_cut == self.shaping.first.high_cut
                &&& after.shaping.second.high_cut == self.shaping.second.high_cut
            }
            &&& if moved == IrRetarget::Level {
                taken_over.level_moved(after.shaping)
            } else {
                &&& after.shaping.first.level == self.shaping.first.level
                &&& after.shaping.second.level == self.shaping.second.level
            }
        }
    }

    /// What taking an offered resource comes to: a handover towards it begins, or, if it was
    /// prepared for another context, it is parked.
    pub open spec fn accepts(&self, resource: Resource, after: IrStage<A>) -> bool {
        forall|slot: Box<IrSlot>, ctx: PrepareContext|
            resource == #[trigger] Resource::of_ir(slot, ctx) ==> after == (if ctx
                == self.handover.prepared_for {
                self.begun(Some(slot), 0)
            } else {
                IrStage {
                    handover: Handover { parked: Some(Parked { slot, ctx }), ..self.handover },
                    ..*self
                }
            })
    }

    /// The stage with nothing parked.
    pub open spec fn cleared(&self) -> IrStage<A> {
        IrStage { handover: Handover { parked: None, ..self.handover }, ..*self }
    }

    /// Processes one block in place.
    pub fn process(&mut self, io: &mut StageIo)
        requires
            old(self).wf(),
            old(io).wf(),
            old(self).takes(old(io).length(), old(io)@.len()),
        ensures
            final(self).wf(),
            final(io).shape() == old(io).shape(),
            old(self).plays(old(io)@, final(io)@, *final(self)),
    {
        broadcast use StageIo::view_has_the_shape;

        let ghost input = io@;
        proof {
            io.view_has_the_shape();
        }
        self.dry.copy_from(io);
        let ghost captured = *self;
        self.process_wet(io);
        let ghost wet = io@;
        let ghost blend = self.blend;
        self.shaping.process(io, &mut self.scratch);
        let ghost shaped = io@;
        proof {
            io.view_has_the_shape();
        }
        self.blend.run(&self.math, &self.dry, io);
        proof {
            let (active, inactive) = choose|
                active: Option<Box<IrSlot>>,
                inactive: Option<Box<IrSlot>>,
            |
                {
                    &&& #[trigger] captured.wet_plays(input, wet, active, inactive)
                    &&& self.handover == captured.handover.moved_on(
                        active,
                        inactive,
                        input[0].len() as int,
                    )
                };
            assert(captured.wet_plays(input, wet, active, inactive));
            assert(old(self).wet_plays(input, wet, active, inactive));
            assert(old(self).shaping.pass(wet, shaped, self.shaping));
            assert(blend.target == old(self).wanted_after(input[0].len() as int));
            assert(block_blends(self.math, blend, input, shaped, io@, self.blend.mix));
            assert(old(self).renders(
                input,
                io@,
                self.blend.mix,
                active,
                inactive,
                self.shaping,
            ));
        }
    }

    /// The stage adds no delay.
    pub fn latency_samples(&self) -> (samples: u32)
        ensures
            samples == 0,
    {
        0
    }

    /// How long the response in service goes on sounding.
    pub open spec fn tail(&self) -> u32 {
        slot_tail(self.handover.active)
    }

    /// How long the response in service goes on sounding, in samples.
    pub fn tail_samples(&self) -> (samples: u32)
        ensures
            samples == self.tail(),
    {
        match &self.handover.active {
            Some(slot) => slot.tail_samples(),
            None => 0,
        }
    }

    /// Clears the filters.
    pub fn reset(&mut self)
        requires
            old(self).wf(),
        ensures
            final(self).wf(),
            old(self).resets_to(*final(self)),
    {
        self.shaping.reset();
    }

    /// Tells the low cut to become what the settings call for.
    fn retarget_low_cut(&mut self, ramp_samples: u32)
        ensures
            *final(self) == (IrStage {
                shaping: IrShaping {
                    first: IrChannel {
                        low_cut: final(self).shaping.first.low_cut,
                        ..old(self).shaping.first
                    },
                    second: IrChannel {
                        low_cut: final(self).shaping.second.low_cut,
                        ..old(self).shaping.second
                    },
                },
                ..*old(self)
            }),
            old(self).low_cut_moved(ramp_samples, final(self).shaping),
    {
        let target = self.filters.low_cut_target();
        brief(&mut self.shaping.first.low_cut, &self.port, target, ramp_samples);
        brief(&mut self.shaping.second.low_cut, &self.port, target, ramp_samples);
    }

    /// Tells the high cut to become what the settings call for.
    fn retarget_high_cut(&mut self, ramp_samples: u32)
        ensures
            *final(self) == (IrStage {
                shaping: IrShaping {
                    first: IrChannel {
                        high_cut: final(self).shaping.first.high_cut,
                        ..old(self).shaping.first
                    },
                    second: IrChannel {
                        high_cut: final(self).shaping.second.high_cut,
                        ..old(self).shaping.second
                    },
                },
                ..*old(self)
            }),
            old(self).high_cut_moved(ramp_samples, final(self).shaping),
    {
        let target = self.filters.high_cut_target();
        brief(&mut self.shaping.first.high_cut, &self.port, target, ramp_samples);
        brief(&mut self.shaping.second.high_cut, &self.port, target, ramp_samples);
    }

    /// Tells the level its target.
    fn retarget_level(&mut self)
        ensures
            *final(self) == (IrStage {
                shaping: IrShaping {
                    first: IrChannel {
                        level: final(self).shaping.first.level,
                        ..old(self).shaping.first
                    },
                    second: IrChannel {
                        level: final(self).shaping.second.level,
                        ..old(self).shaping.second
                    },
                },
                ..*old(self)
            }),
            old(self).level_moved(final(self).shaping),
    {
        let change = ParamChange { id: self.level_target, value: self.filters.level_db };
        self.shaping.first.level.0.apply(change);
        self.shaping.second.level.0.apply(change);
        proof {
            old(self).shaping.first.level.hears_one(change, self.shaping.first.level);
            old(self).shaping.second.level.hears_one(change, self.shaping.second.level);
        }
    }

    /// Applies a parameter update, ignoring any parameter the stage does not own.
    pub fn apply(&mut self, change: ParamChange)
        requires
            old(self).wf(),
        ensures
            final(self).wf(),
            old(self).applies(change, *final(self)),
    {
        if change.id == self.ids.enabled {
            self.enabled = change.switches_on();
            self.retarget();
            return;
        }
        let ramp_samples: u32 = one_block_of_samples(self.handover.prepared_for.max_block_size());
        match self.filters.apply(&self.ids, change) {
            IrRetarget::Nothing => {},
            IrRetarget::LowCut => self.retarget_low_cut(ramp_samples),
            IrRetarget::HighCut => self.retarget_high_cut(ramp_samples),
            IrRetarget::Level => self.retarget_level(),
        }
    }

    /// What the stage reports: whether a response is in service, and whether a handover is under
    /// way.
    pub open spec fn readings(&self) -> Seq<TelemetryEntry> {
        seq![
            TelemetryEntry {
                id: self.ids.loaded,
                value: Sample::of_flag(self.handover.active is Some),
            },
            TelemetryEntry {
                id: self.ids.handover_active,
                value: Sample::of_flag(self.handover.fade is Some),
            },
        ]
    }

    /// Writes the stage's present readings into `out`.
    pub fn telemetry(&self, out: &mut TelemetrySink<'_>)
        requires
            old(out).wf(),
        ensures
            final(out).wf(),
            final(out).room() == old(out).room(),
            final(final(out).buffer)@ == final(old(out).buffer)@,
            final(out)@ == newest(old(out)@ + self.readings(), old(out).room()),
    {
        out.push(
            TelemetryEntry {
                id: self.ids.loaded,
                value: Sample::from_flag(self.handover.active.is_some()),
            },
        );
        out.push(
            TelemetryEntry {
                id: self.ids.handover_active,
                value: Sample::from_flag(self.handover.fade.is_some()),
            },
        );
        assert(out@ =~= newest(old(out)@ + self.readings(), old(out).room()));
    }

    /// The stage after a handover towards `incoming` has begun. If nothing was in service, the fade
    /// starts out at the dry signal itself, so the bypass blend is set to where it is heading.
    pub open spec fn begun(&self, incoming: Option<Box<IrSlot>>, hold: u32) -> IrStage<A> {
        let handover = self.handover.started(incoming, hold);
        let target = Sample::of_flag(self.enabled && handover.sounds());
        IrStage {
            handover,
            blend: BypassBlend {
                mix: if self.handover.active is None {
                    target
                } else {
                    self.blend.mix
                },
                target,
                coefficient: self.blend.coefficient,
            },
            ..*self
        }
    }

    /// Opens or aims the bypass blend for a handover that has just begun.
    fn aim(&mut self)
        ensures
            *final(self) == (IrStage {
                blend: BypassBlend {
                    mix: if old(self).handover.active is None {
                        old(self).wanted()
                    } else {
                        old(self).blend.mix
                    },
                    target: old(self).wanted(),
                    coefficient: old(self).blend.coefficient,
                },
                ..*old(self)
            }),
    {
        self.retarget();
        if self.handover.active.is_none() {
            self.blend.mix = self.blend.target;
        }
    }

    /// Begins a handover towards `slot`. With something already parked there is nowhere to put a
    /// displaced slot, so the new one is handed back and nothing changes.
    pub fn load_ir(&mut self, slot: Box<IrSlot>) -> (refused: Option<Box<IrSlot>>)
        requires
            old(self).wf(),
            slot.fits(old(self).handover.prepared_for.max_frames() as nat),
        ensures
            final(self).wf(),
            old(self).handover.parked is Some ==> refused == Some(slot) && *final(self)
                == *old(self),
            old(self).handover.parked is None ==> refused is None && *final(self)
                == old(self).begun(Some(slot), 0),
    {
        let hold: u32 = 0;
        let refused: Option<Box<IrSlot>> = self.handover.install(slot, hold);
        if refused.is_none() {
            self.aim();
        }
        refused
    }

    /// Begins a handover towards nothing. With something already parked, does nothing.
    fn unload(&mut self)
        requires
            old(self).wf(),
        ensures
            final(self).wf(),
            old(self).handover.parked is Some ==> *final(self) == *old(self),
            old(self).handover.parked is None ==> *final(self) == old(self).begun(None, 0),
    {
        if self.handover.unload() {
            self.aim();
        }
    }

    /// Takes an offered resource of the stage's own kind and begins a handover towards it. One that
    /// was prepared for another context is not installed but parked, to be handed back. Any other
    /// offer is left as it is, and so is one that comes while something is already parked.
    pub fn accept_resource(&mut self, offer: &mut Option<Resource>)
        requires
            old(self).wf(),
        ensures
            final(self).wf(),
            !old(self).welcomes(*old(offer)) ==> *final(self) == *old(self) && *final(offer)
                == *old(offer),
            old(self).welcomes(*old(offer)) ==> *final(offer) == None::<Resource>
                && old(self).accepts(old(offer)->0, *final(self)),
    {
        broadcast use {Resource::made_of_ir, Resource::ir_is_determined};

        match Resource::take_ir(offer) {
            Some((slot, ctx)) => {
                if ctx == self.handover.prepared_for {
                    match self.load_ir(slot) {
                        Some(refused) => {
                            *offer = Some(Resource::ir(refused, ctx));
                        },
                        None => {},
                    }
                } else {
                    match self.handover.park(slot, ctx) {
                        Some(refused) => {
                            *offer = Some(Resource::ir(refused, ctx));
                        },
                        None => {},
                    }
                }
            },
            None => {},
        }
    }

    /// Whether an offer is one the stage takes: of its own kind, with nothing parked.
    pub open spec fn welcomes(&self, offer: Option<Resource>) -> bool {
        self.handover.parked is None && (offer matches Some(resource) && resource.belongs_to()
            == ResourceKind::Ir)
    }

    /// Sends what is parked back through `out`, or keeps it if `out` has no room.
    pub fn collect_retired(&mut self, out: &mut RetireSink<'_>)
        requires
            old(self).wf(),
        ensures
            final(self).wf(),
            *final(final(out).ring) == *final(old(out).ring),
            final(out).ring.ring() == old(out).ring.ring(),
            old(self).handover.parked is None ==> {
                &&& *final(self) == *old(self)
                &&& final(out).ring.sent() == old(out).ring.sent()
                &&& final(out).rejected == old(out).rejected
                &&& final(out).ring.known_free() == old(out).ring.known_free()
            },
            old(self).handover.parked matches Some(p) ==> {
                ||| {
                    &&& *final(self) == old(self).cleared()
                    &&& final(out).ring.sent() == old(out).ring.sent().push(
                        Resource::of_ir(p.slot, p.ctx),
                    )
                    &&& final(out).rejected == old(out).rejected
                    &&& final(out).ring.known_free() + 1 >= old(out).ring.known_free()
                }
                ||| {
                    &&& *final(self) == *old(self)
                    &&& final(out).ring.sent() == old(out).ring.sent()
                    &&& final(out).rejected == counted_up(old(out).rejected, 1)
                    &&& old(out).ring.known_free() == 0
                }
            },
    {
        broadcast use {Resource::made_of_ir, Resource::ir_is_determined};

        if let Some(parked) = self.handover.take_parked() {
            match out.push(Resource::ir(parked.slot, parked.ctx)) {
                Ok(()) => {},
                Err(back) => {
                    let mut kept: Option<Resource> = Some(back);
                    if let Some((slot, ctx)) = Resource::take_ir(&mut kept) {
                        self.handover.park(slot, ctx);
                    }
                },
            }
        }
    }

    /// Begins a handover towards nothing, if `kind` is the stage's own.
    pub fn unload_resource(&mut self, kind: ResourceKind)
        requires
            old(self).wf(),
        ensures
            final(self).wf(),
            *final(self) == if kind == ResourceKind::Ir && old(self).handover.parked is None {
                old(self).begun(None, 0)
            } else {
                *old(self)
            },
    {
        if kind == ResourceKind::Ir {
            self.unload();
        }
    }

    /// How many times the resource `id` is held.
    pub open spec fn copies(&self, id: int) -> nat {
        self.handover.copies(id)
    }
}

/// The first response loaded into a stage that is switched on is heard from the beginning of its
/// own fade: the bypass blend is open at once and has nowhere left to go.
pub proof fn a_first_load_is_heard_at_once<A: SampleMath>(stage: IrStage<A>, slot: Box<IrSlot>)
    requires
        stage.enabled,
        stage.handover.active is None,
    ensures
        stage.begun(Some(slot), 0).blend.mix == Sample::one(),
        stage.begun(Some(slot), 0).blend.target == Sample::one(),
        stage.begun(Some(slot), 0).handover.fade == Some(
            Crossfade::fresh(0, stage.handover.length),
        ),
{
}

/// With nothing loaded there is nothing but the input: the input itself goes through the filters
/// and is blended against the input, on the way to the input alone, and the stage is left as empty
/// as it was.
pub proof fn with_nothing_loaded_there_is_only_the_input<A: SampleMath>(
    stage: IrStage<A>,
    input: Seq<Seq<Sample>>,
    output: Seq<Seq<Sample>>,
    after: IrStage<A>,
)
    requires
        !stage.handover.sounds(),
        stage.handover.fade is None,
        stage.plays(input, output, after),
    ensures
        after.handover == stage.handover,
        after.blend.target == Sample::zero(),
        exists|shaped: Seq<Seq<Sample>>|
            {
                &&& #[trigger] stage.shaping.pass(input, shaped, after.shaping)
                &&& block_blends(
                    stage.math,
                    BypassBlend { target: Sample::zero(), ..stage.blend },
                    input,
                    shaped,
                    output,
                    after.blend.mix,
                )
            },
{
}

/// A stage that is switched off is headed for its dry input, whatever it holds.
pub proof fn a_stage_that_is_off_heads_for_dry<A: SampleMath>(
    stage: IrStage<A>,
    input: Seq<Seq<Sample>>,
    output: Seq<Seq<Sample>>,
    after: IrStage<A>,
)
    requires
        !stage.enabled,
        stage.plays(input, output, after),
    ensures
        after.blend.target == Sample::zero(),
        !after.enabled,
{
}

} // verus!
