//! The five-band equaliser: on each channel five filters in a row, each of them told what to become
//! whenever one of its settings changes. The channels share the settings and nothing else.
//!
//! The stage has no bypass blend: switching it off heads every band for no effect, and the filters
//! themselves ramp there.

use vstd::prelude::*;

use crate::param::{ParamChange, ParamId};
use crate::prepare::{PrepareContext, PrepareError};
use crate::sample::Sample;
use crate::stage::{run_alone, runs, BoxedStage, Stage, StagePrep};
use crate::stage_io::StageIo;
use crate::stages::filter::{
    brief, briefing, cut, cut_target, one_block, one_block_of_samples, FilterKind, FilterPort,
    FilterQ, FilterTarget,
};
use crate::telemetry::{newest, TelemetryEntry, TelemetrySink};

verus! {

/// The defeatable high-pass.
pub const BAND_HIGH_PASS: usize = 0;

/// The low shelf.
pub const BAND_LOW_SHELF: usize = 1;

/// The bell.
pub const BAND_MID: usize = 2;

/// The high shelf.
pub const BAND_HIGH_SHELF: usize = 3;

/// The defeatable low-pass.
pub const BAND_LOW_PASS: usize = 4;

/// How many bands there are.
pub const BAND_COUNT: usize = 5;

/// The ids the stage answers to.
#[derive(Clone, Copy, Debug, PartialEq, Eq, Structural)]
pub struct EqIds {
    /// Switches the stage on and off.
    pub enabled: ParamId,
    /// The low shelf's corner frequency.
    pub low_shelf_freq_hz: ParamId,
    /// The low shelf's gain.
    pub low_shelf_gain_db: ParamId,
    /// The bell's centre frequency.
    pub mid_freq_hz: ParamId,
    /// The bell's gain.
    pub mid_gain_db: ParamId,
    /// The bell's quality factor.
    pub mid_q: ParamId,
    /// The high shelf's corner frequency.
    pub high_shelf_freq_hz: ParamId,
    /// The high shelf's gain.
    pub high_shelf_gain_db: ParamId,
    /// Switches the high-pass on and off.
    pub high_pass_enabled: ParamId,
    /// The high-pass's corner frequency.
    pub high_pass_freq_hz: ParamId,
    /// Switches the low-pass on and off.
    pub low_pass_enabled: ParamId,
    /// The low-pass's corner frequency.
    pub low_pass_freq_hz: ParamId,
}

/// The settings of the five bands.
#[derive(Clone, Copy, Debug, PartialEq, Eq, Structural)]
pub struct EqSettings {
    /// Whether the stage is switched on.
    pub enabled: bool,
    /// The low shelf's corner frequency.
    pub low_shelf_freq_hz: Sample,
    /// The low shelf's gain.
    pub low_shelf_gain_db: Sample,
    /// The bell's centre frequency.
    pub mid_freq_hz: Sample,
    /// The bell's gain.
    pub mid_gain_db: Sample,
    /// The bell's quality factor.
    pub mid_q: Sample,
    /// The high shelf's corner frequency.
    pub high_shelf_freq_hz: Sample,
    /// The high shelf's gain.
    pub high_shelf_gain_db: Sample,
    /// Whether the high-pass is switched on. It takes effect only while the stage is, too.
    pub high_pass_enabled: bool,
    /// The high-pass's corner frequency.
    pub high_pass_freq_hz: Sample,
    /// Whether the low-pass is switched on. It takes effect only while the stage is, too.
    pub low_pass_enabled: bool,
    /// The low-pass's corner frequency.
    pub low_pass_freq_hz: Sample,
}

/// Which filters have to be given a new target.
#[derive(Clone, Copy, Debug, PartialEq, Eq, Structural)]
pub enum Retarget {
    /// None: the change was not one of the stage's.
    Nothing,
    /// That of one band.
    Band(usize),
    /// All of them.
    All,
}

impl Retarget {
    /// Whether a band's filter has to be given a new target.
    pub open spec fn covers(self, band: usize) -> bool {
        match self {
            Retarget::Nothing => false,
            Retarget::Band(b) => b == band,
            Retarget::All => true,
        }
    }
}

impl EqSettings {
    /// What a band's filter is to become.
    pub open spec fn target(self, band: usize) -> FilterTarget {
        if !self.enabled {
            FilterTarget::Identity
        } else if band == BAND_HIGH_PASS {
            cut(FilterKind::HighPass, self.high_pass_enabled, self.high_pass_freq_hz)
        } else if band == BAND_LOW_SHELF {
            FilterTarget::Design {
                kind: FilterKind::LowShelf,
                freq_hz: self.low_shelf_freq_hz,
                q: FilterQ::UnitSlope,
                gain_db: self.low_shelf_gain_db,
            }
        } else if band == BAND_MID {
            FilterTarget::Design {
                kind: FilterKind::Peaking,
                freq_hz: self.mid_freq_hz,
                q: FilterQ::Given(self.mid_q),
                gain_db: self.mid_gain_db,
            }
        } else if band == BAND_HIGH_SHELF {
            FilterTarget::Design {
                kind: FilterKind::HighShelf,
                freq_hz: self.high_shelf_freq_hz,
                q: FilterQ::UnitSlope,
                gain_db: self.high_shelf_gain_db,
            }
        } else {
            cut(FilterKind::LowPass, self.low_pass_enabled, self.low_pass_freq_hz)
        }
    }

    /// The settings after a change, and the filters it moves.
    pub open spec fn changed(self, ids: EqIds, change: ParamChange) -> (EqSettings, Retarget) {
        if change.id == ids.enabled {
            (EqSettings { enabled: change.on(), ..self }, Retarget::All)
        } else if change.id == ids.low_shelf_freq_hz {
            (
                EqSettings { low_shelf_freq_hz: change.value, ..self },
                Retarget::Band(BAND_LOW_SHELF),
            )
        } else if change.id == ids.low_shelf_gain_db {
            (
                EqSettings { low_shelf_gain_db: change.value, ..self },
                Retarget::Band(BAND_LOW_SHELF),
            )
        } else if change.id == ids.mid_freq_hz {
            (EqSettings { mid_freq_hz: change.value, ..self }, Retarget::Band(BAND_MID))
        } else if change.id == ids.mid_gain_db {
            (EqSettings { mid_gain_db: change.value, ..self }, Retarget::Band(BAND_MID))
        } else if change.id == ids.mid_q {
            (EqSettings { mid_q: change.value, ..self }, Retarget::Band(BAND_MID))
        } else if change.id == ids.high_shelf_freq_hz {
            (
                EqSettings { high_shelf_freq_hz: change.value, ..self },
                Retarget::Band(BAND_HIGH_SHELF),
            )
        } else if change.id == ids.high_shelf_gain_db {
            (
                EqSettings { high_shelf_gain_db: change.value, ..self },
                Retarget::Band(BAND_HIGH_SHELF),
            )
        } else if change.id == ids.high_pass_enabled {
            (
                EqSettings { high_pass_enabled: change.on(), ..self },
                Retarget::Band(BAND_HIGH_PASS),
            )
        } else if change.id == ids.high_pass_freq_hz {
            (
                EqSettings { high_pass_freq_hz: change.value, ..self },
                Retarget::Band(BAND_HIGH_PASS),
            )
        } else if change.id == ids.low_pass_enabled {
            (EqSettings { low_pass_enabled: change.on(), ..self }, Retarget::Band(BAND_LOW_PASS))
        } else if change.id == ids.low_pass_freq_hz {
            (
                EqSettings { low_pass_freq_hz: change.value, ..self },
                Retarget::Band(BAND_LOW_PASS),
            )
        } else {
            (self, Retarget::Nothing)
        }
    }

    /// Applies a parameter update and says which filters it moves.
    pub fn apply(&mut self, ids: &EqIds, change: ParamChange) -> (moved: Retarget)
        ensures
            *final(self) == old(self).changed(*ids, change).0,
            moved == old(self).changed(*ids, change).1,
    {
        if change.id == ids.enabled {
            self.enabled = change.switches_on();
            Retarget::All
        } else if change.id == ids.low_shelf_freq_hz {
            self.low_shelf_freq_hz = change.value;
            Retarget::Band(BAND_LOW_SHELF)
        } else if change.id == ids.low_shelf_gain_db {
            self.low_shelf_gain_db = change.value;
            Retarget::Band(BAND_LOW_SHELF)
        } else if change.id == ids.mid_freq_hz {
            self.mid_freq_hz = change.value;
            Retarget::Band(BAND_MID)
        } else if change.id == ids.mid_gain_db {
            self.mid_gain_db = change.value;
            Retarget::Band(BAND_MID)
        } else if change.id == ids.mid_q {
            self.mid_q = change.value;
            Retarget::Band(BAND_MID)
        } else if change.id == ids.high_shelf_freq_hz {
            self.high_shelf_freq_hz = change.value;
            Retarget::Band(BAND_HIGH_SHELF)
        } else if change.id == ids.high_shelf_gain_db {
            self.high_shelf_gain_db = change.value;
            Retarget::Band(BAND_HIGH_SHELF)
        } else if change.id == ids.high_pass_enabled {
            self.high_pass_enabled = change.switches_on();
            Retarget::Band(BAND_HIGH_PASS)
        } else if change.id == ids.high_pass_freq_hz {
            self.high_pass_freq_hz = change.value;
            Retarget::Band(BAND_HIGH_PASS)
        } else if change.id == ids.low_pass_enabled {
            self.low_pass_enabled = change.switches_on();
            Retarget::Band(BAND_LOW_PASS)
        } else if change.id == ids.low_pass_freq_hz {
            self.low_pass_freq_hz = change.value;
            Retarget::Band(BAND_LOW_PASS)
        } else {
            Retarget::Nothing
        }
    }
}

/// Every band whose target a change moves is given its new target; bands that are left alone keep
/// theirs.
pub proof fn retargeting_covers_every_change(
    settings: EqSettings,
    ids: EqIds,
    change: ParamChange,
    band: usize,
)
    requires
        band < BAND_COUNT,
    ensures
        !settings.changed(ids, change).1.covers(band) ==> settings.changed(ids, change).0.target(
            band,
        ) == settings.target(band),
{
}

/// A stage that is switched off has no effect in any band, whatever the other settings are.
pub proof fn switched_off_has_no_effect(settings: EqSettings, band: usize)
    requires
        !settings.enabled,
    ensures
        settings.target(band) == FilterTarget::Identity,
{
}

/// The filters of one channel, one per band.
pub struct EqBands {
    /// The high-pass's.
    pub high_pass: BoxedStage,
    /// The low shelf's.
    pub low_shelf: BoxedStage,
    /// The bell's.
    pub mid: BoxedStage,
    /// The high shelf's.
    pub high_shelf: BoxedStage,
    /// The low-pass's.
    pub low_pass: BoxedStage,
}

impl EqBands {
    /// A band's filter.
    pub open spec fn band(&self, band: usize) -> BoxedStage {
        if band == BAND_HIGH_PASS {
            self.high_pass
        } else if band == BAND_LOW_SHELF {
            self.low_shelf
        } else if band == BAND_MID {
            self.mid
        } else if band == BAND_HIGH_SHELF {
            self.high_shelf
        } else {
            self.low_pass
        }
    }

    /// Whether the five, one after the other, may turn `input` into `output` and be left as
    /// `after`.
    pub open spec fn pass(&self, input: Seq<Sample>, output: Seq<Sample>, after: EqBands) -> bool {
        exists|
            high_passed: Seq<Sample>,
            low_shelved: Seq<Sample>,
            belled: Seq<Sample>,
            high_shelved: Seq<Sample>,
        |
            {
                &&& #[trigger] runs(self.high_pass, input, high_passed, after.high_pass)
                &&& #[trigger] runs(self.low_shelf, high_passed, low_shelved, after.low_shelf)
                &&& #[trigger] runs(self.mid, low_shelved, belled, after.mid)
                &&& #[trigger] runs(self.high_shelf, belled, high_shelved, after.high_shelf)
                &&& runs(self.low_pass, high_shelved, output, after.low_pass)
            }
    }

    /// Filters channel `ch` of a block. `scratch` has room for it.
    fn run(&mut self, io: &mut StageIo, ch: usize, scratch: &mut StageIo)
        requires
            old(io).wf(),
            ch < old(io)@.len(),
            old(scratch).shape().1.len() == 1,
            old(scratch)@.len() == 1,
            old(scratch).carries(old(io).length()),
        ensures
            final(io).shape() == old(io).shape(),
            final(io)@ == old(io)@.update(ch as int, final(io)@[ch as int]),
            final(scratch).shape().1 == old(scratch).shape().1,
            final(scratch)@.len() == 1,
            old(self).pass(old(io)@[ch as int], final(io)@[ch as int], *final(self)),
    {
        broadcast use StageIo::view_has_the_shape;

        let ghost input = io@[ch as int];
        scratch.set_frames(io.frames());
        scratch.copy_channel(0, io, ch);
        assert(scratch@ =~= seq![input]);
        run_alone(&mut self.high_pass, scratch);
        let ghost high_passed = scratch@[0];
        run_alone(&mut self.low_shelf, scratch);
        let ghost low_shelved = scratch@[0];
        run_alone(&mut self.mid, scratch);
        let ghost belled = scratch@[0];
        run_alone(&mut self.high_shelf, scratch);
        let ghost high_shelved = scratch@[0];
        run_alone(&mut self.low_pass, scratch);
        proof {
            assert(runs(old(self).high_pass, input, high_passed, self.high_pass));
            assert(runs(old(self).low_shelf, high_passed, low_shelved, self.low_shelf));
            assert(runs(old(self).mid, low_shelved, belled, self.mid));
            assert(runs(old(self).high_shelf, belled, high_shelved, self.high_shelf));
        }
        io.copy_channel(ch, scratch, 0);
    }

    /// Tells a band's filter to become `target`.
    fn brief_band(
        &mut self,
        band: usize,
        port: &FilterPort,
        target: FilterTarget,
        ramp_samples: u32,
    )
        requires
            band < BAND_COUNT,
        ensures
            old(self).band(band).hears(
                briefing(*port, target, ramp_samples),
                final(self).band(band),
            ),
            forall|other: usize|
                other < BAND_COUNT && other != band ==> #[trigger] final(self).band(other)
                    == old(self).band(other),
    {
        if band == BAND_HIGH_PASS {
            brief(&mut self.high_pass, port, target, ramp_samples);
        } else if band == BAND_LOW_SHELF {
            brief(&mut self.low_shelf, port, target, ramp_samples);
        } else if band == BAND_MID {
            brief(&mut self.mid, port, target, ramp_samples);
        } else if band == BAND_HIGH_SHELF {
            brief(&mut self.high_shelf, port, target, ramp_samples);
        } else {
            brief(&mut self.low_pass, port, target, ramp_samples);
        }
    }

    /// Clears the filters' memory.
    fn clear(&mut self)
        ensures
            forall|band: usize|
                band < BAND_COUNT ==> (#[trigger] old(self).band(band)).clears_to(
                    final(self).band(band),
                ),
    {
        self.high_pass.0.reset();
        self.low_shelf.0.reset();
        self.mid.0.reset();
        self.high_shelf.0.reset();
        self.low_pass.0.reset();
    }
}

/// Builds an [`EqStage`].
pub struct EqPrep {
    /// The ids the stage answers to.
    pub ids: EqIds,
    /// The settings the stage starts out with.
    pub defaults: EqSettings,
    /// How the filters are told what to become.
    pub port: FilterPort,
    /// The first channel's filters, as yet without an effect.
    pub first: EqBands,
    /// The second channel's, which are left idle where there is only one.
    pub second: EqBands,
}

impl StagePrep for EqPrep {
    type Prepared = EqStage;

    /// Every filter has been told to jump to what the settings call for: there is nothing yet for a
    /// jump to click against.
    open spec fn prepares(self, ctx: PrepareContext, stage: EqStage) -> bool {
        &&& stage.wf()
        &&& stage == (EqStage {
            ids: self.ids,
            settings: self.defaults,
            port: self.port,
            first: stage.first,
            second: stage.second,
            prepared_for: ctx,
            scratch: stage.scratch,
        })
        &&& forall|band: usize|
            band < BAND_COUNT ==> (#[trigger] self.first.band(band)).hears(
                briefing(self.port, self.defaults.target(band), 0),
                stage.first.band(band),
            )
        &&& forall|band: usize|
            band < BAND_COUNT ==> (#[trigger] self.second.band(band)).hears(
                briefing(self.port, self.defaults.target(band), 0),
                stage.second.band(band),
            )
    }

    fn prepare(self, ctx: &PrepareContext) -> (stage: Result<EqStage, PrepareError>)
        ensures
            stage is Ok,
    {
        let mut stage = EqStage {
            ids: self.ids,
            settings: self.defaults,
            port: self.port,
            first: self.first,
            second: self.second,
            prepared_for: *ctx,
            scratch: StageIo::zeroed(1, ctx.max_block_size()),
        };
        let ghost fresh = stage;
        stage.retarget_all(0);
        assert forall|band: usize| band < BAND_COUNT implies (#[trigger] self.first.band(
            band,
        )).hears(briefing(self.port, self.defaults.target(band), 0), stage.first.band(band)) by {
            assert(fresh.moved(band, 0, stage));
        }
        assert forall|band: usize| band < BAND_COUNT implies (#[trigger] self.second.band(
            band,
        )).hears(briefing(self.port, self.defaults.target(band), 0), stage.second.band(band)) by {
            assert(fresh.moved(band, 0, stage));
        }
        Ok(stage)
    }
}

/// The equaliser.
pub struct EqStage {
    /// The ids the stage answers to.
    pub ids: EqIds,
    /// The settings of the five bands, which all channels share.
    pub settings: EqSettings,
    /// How the filters are told what to become.
    pub port: FilterPort,
    /// The first channel's filters.
    pub first: EqBands,
    /// The second channel's, which are left idle where there is only one.
    pub second: EqBands,
    /// What the stage was prepared for. Its largest block is also how long the filters take to a
    /// new target.
    pub prepared_for: PrepareContext,
    /// One channel of the block.
    pub scratch: StageIo,
}

impl EqStage {
    /// The scratch buffer has room for one channel of the largest block.
    pub open spec fn wf(&self) -> bool {
        &&& self.scratch.shape().1.len() == 1
        &&& self.scratch@.len() == 1
        &&& self.scratch.carries(self.prepared_for.max_frames() as nat)
    }

    /// Whether the stage has room for a block of this many frames and channels.
    pub open spec fn takes(&self, frames: nat, channels: nat) -> bool {
        &&& frames <= self.prepared_for.max_frames()
        &&& 1 <= channels <= self.prepared_for.channels()
    }

    /// Over how many samples filters move to a new target: one largest block.
    pub open spec fn ramp(&self) -> u32 {
        one_block(self.prepared_for.max_frames())
    }

    /// Whether a band's filters have been told, once more, to become what the settings call for.
    pub open spec fn moved(&self, band: usize, ramp_samples: u32, after: EqStage) -> bool {
        let told = briefing(self.port, self.settings.target(band), ramp_samples);
        &&& self.first.band(band).hears(told, after.first.band(band))
        &&& self.second.band(band).hears(told, after.second.band(band))
    }

    /// What processing a block comes to: each channel passes its own five filters in a row.
    pub open spec fn plays(
        &self,
        input: Seq<Seq<Sample>>,
        output: Seq<Seq<Sample>>,
        after: EqStage,
    ) -> bool {
        &&& after == (EqStage {
            first: after.first,
            second: after.second,
            scratch: after.scratch,
            ..*self
        })
        &&& output.len() == input.len()
        &&& self.first.pass(input[0], output[0], after.first)
        &&& if input.len() > 1 {
            self.second.pass(input[1], output[1], after.second)
        } else {
            after.second == self.second
        }
    }

    /// What a reset comes to: the filters are cleared.
    pub open spec fn resets_to(&self, after: EqStage) -> bool {
        &&& after == (EqStage { first: after.first, second: after.second, ..*self })
        &&& forall|band: usize|
            band < BAND_COUNT ==> (#[trigger] self.first.band(band)).clears_to(
                after.first.band(band),
            )
        &&& forall|band: usize|
            band < BAND_COUNT ==> (#[trigger] self.second.band(band)).clears_to(
                after.second.band(band),
            )
    }

    /// What a parameter update comes to: the setting is taken over, and the filters it moves are
    /// told what to become.
    pub open spec fn applies(&self, change: ParamChange, after: EqStage) -> bool {
        let (settings, moved) = self.settings.changed(self.ids, change);
        &&& after == (EqStage { settings, first: after.first, second: after.second, ..*self })
        &&& forall|band: usize|
            band < BAND_COUNT ==> if moved.covers(band) {
                self.first.band(band).hears(
                    briefing(self.port, settings.target(band), self.ramp()),
                    #[trigger] after.first.band(band),
                )
            } else {
                after.first.band(band) == self.first.band(band)
            }
        &&& forall|band: usize|
            band < BAND_COUNT ==> if moved.covers(band) {
                self.second.band(band).hears(
                    briefing(self.port, settings.target(band), self.ramp()),
                    #[trigger] after.second.band(band),
                )
            } else {
                after.second.band(band) == self.second.band(band)
            }
    }

    /// What a band's filter is to become.
    pub fn band_target(&self, band: usize) -> (target: FilterTarget)
        requires
            band < BAND_COUNT,
        ensures
            target == self.settings.target(band),
    {
        let s: EqSettings = self.settings;
        if !s.enabled {
            return FilterTarget::Identity;
        }
        if band == BAND_HIGH_PASS {
            cut_target(FilterKind::HighPass, s.high_pass_enabled, s.high_pass_freq_hz)
        } else if band == BAND_LOW_SHELF {
            FilterTarget::Design {
                kind: FilterKind::LowShelf,
                freq_hz: s.low_shelf_freq_hz,
                q: FilterQ::UnitSlope,
                gain_db: s.low_shelf_gain_db,
            }
        } else if band == BAND_MID {
            FilterTarget::Design {
                kind: FilterKind::Peaking,
                freq_hz: s.mid_freq_hz,
                q: FilterQ::Given(s.mid_q),
                gain_db: s.mid_gain_db,
            }
        } else if band == BAND_HIGH_SHELF {
            FilterTarget::Design {
                kind: FilterKind::HighShelf,
                freq_hz: s.high_shelf_freq_hz,
                q: FilterQ::UnitSlope,
                gain_db: s.high_shelf_gain_db,
            }
        } else {
            cut_target(FilterKind::LowPass, s.low_pass_enabled, s.low_pass_freq_hz)
        }
    }

    /// Tells a band's filters to become what the settings call for.
    fn retarget(&mut self, band: usize, ramp_samples: u32)
        requires
            band < BAND_COUNT,
        ensures
            *final(self) == (EqStage {
                first: final(self).first,
                second: final(self).second,
                ..*old(self)
            }),
            old(self).moved(band, ramp_samples, *final(self)),
            forall|other: usize|
                other < BAND_COUNT && other != band ==> #[trigger] final(self).first.band(other)
                    == old(self).first.band(other),
            forall|other: usize|
                other < BAND_COUNT && other != band ==> #[trigger] final(self).second.band(other)
                    == old(self).second.band(other),
    {
        let target = self.band_target(band);
        self.first.brief_band(band, &self.port, target, ramp_samples);
        self.second.brief_band(band, &self.port, target, ramp_samples);
    }

    /// Tells every filter to become what the settings call for.
    fn retarget_all(&mut self, ramp_samples: u32)
        ensures
            *final(self) == (EqStage {
                first: final(self).first,
                second: final(self).second,
                ..*old(self)
            }),
            forall|band: usize|
                band < BAND_COUNT ==> #[trigger] old(self).moved(
                    band,
                    ramp_samples,
                    *final(self),
                ),
    {
        self.retarget(BAND_HIGH_PASS, ramp_samples);
        self.retarget(BAND_LOW_SHELF, ramp_samples);
        self.retarget(BAND_MID, ramp_samples);
        self.retarget(BAND_HIGH_SHELF, ramp_samples);
        self.retarget(BAND_LOW_PASS, ramp_samples);
    }

    /// Processes one block in place.
    pub fn process(&mut self, io: &mut StageIo)
        requires
            old(self).wf(),
            old(io).wf(),
            old(self).takes(old(io).length(), old(io)@.len()),
        ensures
            final(self).wf(),
            final(io).shape() == old(io).shape(),
            old(self).plays(old(io)@, final(io)@, *final(self)),
    {
        self.first.run(io, 0, &mut self.scratch);
        if io.channel_count() > 1 {
            self.second.run(io, 1, &mut self.scratch);
        }
    }

    /// Clears the filters' memory.
    pub fn reset(&mut self)
        requires
            old(self).wf(),
        ensures
            final(self).wf(),
            old(self).resets_to(*final(self)),
    {
        self.first.clear();
        self.second.clear();
    }

    /// The stage adds no delay.
    pub fn latency_samples(&self) -> (samples: u32)
        ensures
            samples == 0,
    {
        0
    }

    /// The stage falls silent with its input.
    pub fn tail_samples(&self) -> (samples: u32)
        ensures
            samples == 0,
    {
        0
    }

    /// Applies a parameter update, ignoring any parameter the stage does not own.
    pub fn apply(&mut self, change: ParamChange)
        requires
            old(self).wf(),
        ensures
            final(self).wf(),
            old(self).applies(change, *final(self)),
    {
        let ramp_samples: u32 = one_block_of_samples(self.prepared_for.max_block_size());
        let retarget: Retarget = self.settings.apply(&self.ids, change);
        let ghost set = *self;
        match retarget {
            Retarget::Nothing => {},
            Retarget::Band(band) => self.retarget(band, ramp_samples),
            Retarget::All => self.retarget_all(ramp_samples),
        }
        assert forall|band: usize| band < BAND_COUNT && retarget.covers(band) implies set.moved(
            band,
            ramp_samples,
            *self,
        ) by {}
    }

    /// The stage reports nothing.
    pub open spec fn readings(&self) -> Seq<TelemetryEntry> {
        Seq::empty()
    }

    /// Writes the stage's present readings into `out`: there are none.
    pub fn telemetry(&self, out: &mut TelemetrySink<'_>)
        requires
            old(out).wf(),
        ensures
            final(out).wf(),
            final(out).room() == old(out).room(),
            final(final(out).buffer)@ == final(old(out).buffer)@,
            final(out)@ == newest(old(out)@ + self.readings(), old(out).room()),
    {
        proof {
            out.holds_no_more_than_its_room();
            assert(out@ + self.readings() =~= out@);
        }
    }
}

/// Switching the stage off tells every filter to have no effect, and switching it on again tells
/// each of them to become just what it would have become without that.
pub proof fn switching_off_and_on_restores_every_band(
    stage: EqStage,
    off: EqStage,
    on: EqStage,
    off_value: Sample,
    on_value: Sample,
    band: usize,
)
    requires
        stage.settings.enabled,
        !(ParamChange { id: stage.ids.enabled, value: off_value }).on(),
        (ParamChange { id: stage.ids.enabled, value: on_value }).on(),
        stage.applies(ParamChange { id: stage.ids.enabled, value: off_value }, off),
        off.applies(ParamChange { id: stage.ids.enabled, value: on_value }, on),
        band < BAND_COUNT,
    ensures
        stage.first.band(band).hears(
            briefing(stage.port, FilterTarget::Identity, stage.ramp()),
            off.first.band(band),
        ),
        stage.second.band(band).hears(
            briefing(stage.port, FilterTarget::Identity, stage.ramp()),
            off.second.band(band),
        ),
        off.first.band(band).hears(
            briefing(stage.port, stage.settings.target(band), stage.ramp()),
            on.first.band(band),
        ),
        off.second.band(band).hears(
            briefing(stage.port, stage.settings.target(band), stage.ramp()),
            on.second.band(band),
        ),
        on.settings == stage.settings,
{
    let (before, between) = (stage.first.band(band), off.first.band(band));
    assert((EqStage { settings: off.settings, ..stage }).moved(band, stage.ramp(), off));
    assert((EqStage { settings: on.settings, ..off }).moved(band, off.ramp(), on));
}

/// No channel hears another: whatever the first channel is given, what may come out of the second,
/// and how its filters are left, is decided by the second's own input alone, and the other way
/// round.
pub proof fn channels_are_filtered_independently(
    stage: EqStage,
    input: Seq<Seq<Sample>>,
    output: Seq<Seq<Sample>>,
    after: EqStage,
    other_input: Seq<Seq<Sample>>,
    other_output: Seq<Seq<Sample>>,
    other_after: EqStage,
)
    requires
        input.len() == 2,
        other_input.len() == 2,
        stage.plays(input, output, after),
        stage.plays(other_input, other_output, other_after),
    ensures
        stage.plays(
            seq![other_input[0], input[1]],
            seq![other_output[0], output[1]],
            EqStage { first: other_after.first, ..after },
        ),
{
}

} // verus!
