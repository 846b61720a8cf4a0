//! The cabinet stage's cut filters and level: their settings, and what a change of them moves.
//!
//! Each cut has a switch of its own, apart from the stage's. A cut that is switched off is headed
//! for no effect, and the filter itself ramps there.

use vstd::prelude::*;

use crate::param::ParamChange;
use crate::sample::Sample;
use crate::stage::{run_alone, runs, BoxedStage, Stage};
use crate::stage_io::StageIo;
use crate::stages::filter::{cut, cut_target, FilterKind, FilterTarget};
use crate::stages::ir::IrIds;

verus! {

/// What has to be given a new target.
#[derive(Clone, Copy, Debug, PartialEq, Eq, Structural)]
pub enum IrRetarget {
    /// Nothing: the change was not one of these settings.
    Nothing,
    /// The low cut.
    LowCut,
    /// The high cut.
    HighCut,
    /// The level.
    Level,
}

/// The settings of the cut filters and the level.
#[derive(Clone, Copy, Debug, PartialEq, Eq, Structural)]
pub struct IrFilters {
    /// The level, in decibels.
    pub level_db: Sample,
    /// Whether the low cut is switched on.
    pub low_cut_enabled: bool,
    /// The low cut's corner frequency.
    pub low_cut_freq_hz: Sample,
    /// Whether the high cut is switched on.
    pub high_cut_enabled: bool,
    /// The high cut's corner frequency.
    pub high_cut_freq_hz: Sample,
}

impl IrFilters {
    /// What the low cut is to become.
    pub open spec fn low_cut(self) -> FilterTarget {
        cut(FilterKind::HighPass, self.low_cut_enabled, self.low_cut_freq_hz)
    }

    /// What the high cut is to become.
    pub open spec fn high_cut(self) -> FilterTarget {
        cut(FilterKind::LowPass, self.high_cut_enabled, self.high_cut_freq_hz)
    }

    /// The settings after a change, and what it moves.
    pub open spec fn changed(self, ids: IrIds, change: ParamChange) -> (IrFilters, IrRetarget) {
        if change.id == ids.level_db {
            (IrFilters { level_db: change.value, ..self }, IrRetarget::Level)
        } else if change.id == ids.low_cut_enabled {
            (IrFilters { low_cut_enabled: change.on(), ..self }, IrRetarget::LowCut)
        } else if change.id == ids.low_cut_freq_hz {
            (IrFilters { low_cut_freq_hz: change.value, ..self }, IrRetarget::LowCut)
        } else if change.id == ids.high_cut_enabled {
            (IrFilters { high_cut_enabled: change.on(), ..self }, IrRetarget::HighCut)
        } else if change.id == ids.high_cut_freq_hz {
            (IrFilters { high_cut_freq_hz: change.value, ..self }, IrRetarget::HighCut)
        } else {
            (self, IrRetarget::Nothing)
        }
    }

    /// What the low cut is to become.
    pub fn low_cut_target(&self) -> (target: FilterTarget)
        ensures
            target == self.low_cut(),
    {
        cut_target(FilterKind::HighPass, self.low_cut_enabled, self.low_cut_freq_hz)
    }

    /// What the high cut is to become.
    pub fn high_cut_target(&self) -> (target: FilterTarget)
        ensures
            target == self.high_cut(),
    {
        cut_target(FilterKind::LowPass, self.high_cut_enabled, self.high_cut_freq_hz)
    }

    /// Applies a parameter update and says what it moves.
    pub fn apply(&mut self, ids: &IrIds, change: ParamChange) -> (retarget: IrRetarget)
        ensures
            *final(self) == old(self).changed(*ids, change).0,
            retarget == old(self).changed(*ids, change).1,
    {
        if change.id == ids.level_db {
            self.level_db = change.value;
            IrRetarget::Level
        } else if change.id == ids.low_cut_enabled {
            self.low_cut_enabled = change.switches_on();
            IrRetarget::LowCut
        } else if change.id == ids.low_cut_freq_hz {
            self.low_cut_freq_hz = change.value;
            IrRetarget::LowCut
        } else if change.id == ids.high_cut_enabled {
            self.high_cut_enabled = change.switches_on();
            IrRetarget::HighCut
        } else if change.id == ids.high_cut_freq_hz {
            self.high_cut_freq_hz = change.value;
            IrRetarget::HighCut
        } else {
            IrRetarget::Nothing
        }
    }
}

/// One channel's cut filters and level.
pub struct IrChannel {
    /// The low cut.
    pub low_cut: BoxedStage,
    /// The high cut.
    pub high_cut: BoxedStage,
    /// The level.
    pub level: BoxedStage,
}

impl IrChannel {
    /// Whether low cut, high cut and level, one after the other, may turn `input` into `output` and
    /// be left as `after`.
    pub open spec fn pass(
        &self,
        input: Seq<Sample>,
        output: Seq<Sample>,
        after: IrChannel,
    ) -> bool {
        exists|low_cut: Seq<Sample>, high_cut: Seq<Sample>|
            {
                &&& #[trigger] runs(self.low_cut, input, low_cut, after.low_cut)
                &&& #[trigger] runs(self.high_cut, low_cut, high_cut, after.high_cut)
                &&& runs(self.level, high_cut, output, after.level)
            }
    }

    /// Whether `after` is this channel with its filters cleared and its level where it was.
    pub open spec fn clears_to(&self, after: IrChannel) -> bool {
        &&& self.low_cut.clears_to(after.low_cut)
        &&& self.high_cut.clears_to(after.high_cut)
        &&& after.level == self.level
    }

    /// Shapes channel `ch` of a block. `scratch` has room for it.
    fn run(&mut self, io: &mut StageIo, ch: usize, scratch: &mut StageIo)
        requires
            old(io).wf(),
            ch < old(io)@.len(),
            old(scratch).shape().1.len() == 1,
            old(scratch)@.len() == 1,
            old(scratch).carries(old(io).length()),
        ensures
            final(io).shape() == old(io).shape(),
            final(io)@ == old(io)@.update(ch as int, final(io)@[ch as int]),
            final(scratch).shape().1 == old(scratch).shape().1,
            final(scratch)@.len() == 1,
            old(self).pass(old(io)@[ch as int], final(io)@[ch as int], *final(self)),
    {
        broadcast use StageIo::view_has_the_shape;

        let ghost input = io@[ch as int];
        scratch.set_frames(io.frames());
        scratch.copy_channel(0, io, ch);
        assert(scratch@ =~= seq![input]);
        run_alone(&mut self.low_cut, scratch);
        let ghost low_cut = scratch@[0];
        run_alone(&mut self.high_cut, scratch);
        let ghost high_cut = scratch@[0];
        run_alone(&mut self.level, scratch);
        assert(runs(old(self).low_cut, input, low_cut, self.low_cut));
        assert(runs(old(self).high_cut, low_cut, high_cut, self.high_cut));
        io.copy_channel(ch, scratch, 0);
    }

    /// Clears the filters' memory. The level stays where it is.
    fn clear(&mut self)
        ensures
            old(self).clears_to(*final(self)),
    {
        self.low_cut.0.reset();
        self.high_cut.0.reset();
    }
}

/// Whether both of two processors have been given `changes`, one after the other.
pub open spec fn both_hear(
    first: BoxedStage,
    second: BoxedStage,
    changes: Seq<ParamChange>,
    first_after: BoxedStage,
    second_after: BoxedStage,
) -> bool {
    first.hears(changes, first_after) && second.hears(changes, second_after)
}

/// The cut filters and the level of every channel.
pub struct IrShaping {
    /// The first channel's.
    pub first: IrChannel,
    /// The second channel's, which are left idle where there is only one.
    pub second: IrChannel,
}

impl IrShaping {
    /// Whether each channel's filters and level may turn its part of `input` into that of `output`
    /// and be left as `after`.
    pub open spec fn pass(
        &self,
        input: Seq<Seq<Sample>>,
        output: Seq<Seq<Sample>>,
        after: IrShaping,
    ) -> bool {
        &&& output.len() == input.len()
        &&& self.first.pass(input[0], output[0], after.first)
        &&& if input.len() > 1 {
            self.second.pass(input[1], output[1], after.second)
        } else {
            after.second == self.second
        }
    }

    /// Processes one block in place. `scratch` has room for one channel of it.
    pub fn process(&mut self, io: &mut StageIo, scratch: &mut StageIo)
        requires
            old(io).wf(),
            1 <= old(io)@.len() <= 2,
            old(scratch).shape().1.len() == 1,
            old(scratch)@.len() == 1,
            old(scratch).carries(old(io).length()),
        ensures
            final(io).shape() == old(io).shape(),
            final(scratch).shape().1 == old(scratch).shape().1,
            final(scratch)@.len() == 1,
            old(self).pass(old(io)@, final(io)@, *final(self)),
    {
        self.first.run(io, 0, scratch);
        if io.channel_count() > 1 {
            self.second.run(io, 1, scratch);
        }
    }

    /// Clears the filters' memory. The levels stay where they are.
    pub fn reset(&mut self)
        ensures
            old(self).first.clears_to(final(self).first),
            old(self).second.clears_to(final(self).second),
    {
        self.first.clear();
        self.second.clear();
    }
}

/// Whatever a change moves is given its new target; what is left alone keeps its own.
pub proof fn retargeting_covers_every_change(filters: IrFilters, ids: IrIds, change: ParamChange)
    ensures
        filters.changed(ids, change).1 != IrRetarget::LowCut ==> filters.changed(
            ids,
            change,
        ).0.low_cut() == filters.low_cut(),
        filters.changed(ids, change).1 != IrRetarget::HighCut ==> filters.changed(
            ids,
            change,
        ).0.high_cut() == filters.high_cut(),
        filters.changed(ids, change).1 != IrRetarget::Level ==> filters.changed(
            ids,
            change,
        ).0.level_db == filters.level_db,
{
}

} // verus!
