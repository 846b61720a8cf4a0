//! Stages: what a chain is made of.

use vstd::prelude::*;

use crate::param::ParamChange;
use crate::prepare::{PrepareContext, PrepareError};
use crate::sample::Sample;
use crate::stage_io::{alike, StageIo};
use crate::telemetry::{newest, TelemetryEntry, TelemetrySink};

verus! {

/// Builds a stage. Runs on a worker thread: it may allocate, may fail and may take its time.
pub trait StagePrep: Sized {
    /// The stage this preparation produces.
    type Prepared;

    /// Whether `stage` is ready for every block within `ctx`, as this preparation was to make it.
    open spec fn prepares(self, ctx: PrepareContext, stage: Self::Prepared) -> bool {
        arbitrary()
    }

    /// Builds the stage, sizing everything it will need up front, so that it never has to ask for
    /// more.
    fn prepare(self, ctx: &PrepareContext) -> (stage: Result<Self::Prepared, PrepareError>)
        ensures
            stage matches Ok(s) ==> self.prepares(*ctx, s),
    ;
}

/// Something that has been done to a processor.
pub enum Event {
    /// It was given a parameter update.
    Told(ParamChange),
    /// It processed a block.
    Played(Seq<Seq<Sample>>),
    /// Its internal state was cleared.
    Cleared,
}

/// Parameter updates, one after the other, as events.
pub open spec fn told_all(changes: Seq<ParamChange>) -> Seq<Event> {
    Seq::new(changes.len(), |k: int| Event::Told(changes[k]))
}

/// Blocks, one after the other, as events.
pub open spec fn played_all(blocks: Seq<Seq<Seq<Sample>>>) -> Seq<Event> {
    Seq::new(blocks.len(), |k: int| Event::Played(blocks[k]))
}

/// One processor. Runs on the audio thread: it must not allocate, lock, block or fail, whatever
/// block it is handed.
///
/// The spec functions are a stage's own account of itself, and the engine's contracts are stated in
/// their terms. A stage that gives none is an unknown one: nothing follows of it from its type.
pub trait Stage: Send {
    /// The delay the stage adds, in samples.
    open spec fn latency(&self) -> u32 {
        arbitrary()
    }

    /// How long the stage goes on sounding after its input has gone silent, in samples.
    open spec fn tail(&self) -> u32 {
        arbitrary()
    }

    /// Whether `output` is a block the stage may make of `input` in its present state.
    open spec fn renders(&self, input: Seq<Seq<Sample>>, output: Seq<Seq<Sample>>) -> bool {
        arbitrary()
    }

    /// The readings the stage reports in its present state, in order.
    open spec fn readings(&self) -> Seq<TelemetryEntry> {
        arbitrary()
    }

    /// Which processor this is. Nothing that is done to a stage changes it.
    open spec fn identity(&self) -> int {
        arbitrary()
    }

    /// The parameter updates the stage has been given, in order.
    open spec fn told(&self) -> Seq<ParamChange> {
        arbitrary()
    }

    /// The blocks whose traces the stage's internal state (filter memory, envelopes, ...) bears:
    /// those it has processed since it was last cleared, in order.
    open spec fn played(&self) -> Seq<Seq<Seq<Sample>>> {
        arbitrary()
    }

    /// Everything that has been done to the stage, in order.
    open spec fn history(&self) -> Seq<Event> {
        arbitrary()
    }

    /// Processes one block in place.
    fn process(&mut self, io: &mut StageIo)
        requires
            old(io).wf(),
        ensures
            final(io).shape() == old(io).shape(),
            old(self).renders(old(io)@, final(io)@),
            final(self).identity() == old(self).identity(),
            final(self).told() == old(self).told(),
            final(self).played() == old(self).played().push(old(io)@),
            final(self).history() == old(self).history().push(Event::Played(old(io)@)),
    ;

    /// Clears internal state (filter memory, envelopes, ...) without changing parameters.
    fn reset(&mut self)
        ensures
            final(self).played() == Seq::<Seq<Seq<Sample>>>::empty(),
            final(self).identity() == old(self).identity(),
            final(self).told() == old(self).told(),
            final(self).history() == old(self).history().push(Event::Cleared),
    ;

    /// The delay the stage adds, in samples.
    fn latency_samples(&self) -> (samples: u32)
        ensures
            samples == self.latency(),
    ;

    /// How long the stage goes on sounding after its input has gone silent, in samples.
    fn tail_samples(&self) -> (samples: u32)
        ensures
            samples == self.tail(),
    ;

    /// Applies a parameter update, ignoring any parameter the stage does not own.
    fn apply(&mut self, change: ParamChange)
        ensures
            final(self).identity() == old(self).identity(),
            final(self).told() == old(self).told().push(change),
            final(self).played() == old(self).played(),
            final(self).history() == old(self).history().push(Event::Told(change)),
    ;

    /// Writes the stage's present readings into `out`.
    fn telemetry(&self, out: &mut TelemetrySink<'_>)
        requires
            old(out).wf(),
        ensures
            final(out).wf(),
            final(out).room() == old(out).room(),
            final(final(out).buffer)@ == final(old(out).buffer)@,
            final(out)@ == newest(old(out)@ + self.readings(), old(out).room()),
    ;
}

/// An owned processor of any kind.
pub struct BoxedStage(pub Box<dyn Stage>);

impl BoxedStage {
    /// Whether the processor may turn `input` into `output` and be left as `after`.
    pub open spec fn passes(
        &self,
        input: Seq<Seq<Sample>>,
        output: Seq<Seq<Sample>>,
        after: BoxedStage,
    ) -> bool {
        &&& alike(input, output)
        &&& self.0.renders(input, output)
        &&& after.0.identity() == self.0.identity()
        &&& after.0.told() == self.0.told()
        &&& after.0.played() == self.0.played().push(input)
        &&& after.0.history() == self.0.history().push(Event::Played(input))
    }

    /// Whether `after` is this processor, with its internal state cleared.
    pub open spec fn clears_to(&self, after: BoxedStage) -> bool {
        &&& after.0.played() == Seq::<Seq<Seq<Sample>>>::empty()
        &&& after.0.identity() == self.0.identity()
        &&& after.0.told() == self.0.told()
        &&& after.0.history() == self.0.history().push(Event::Cleared)
    }

    /// Whether `after` is this processor, once it has been given `changes`, one after the other.
    pub open spec fn hears(&self, changes: Seq<ParamChange>, after: BoxedStage) -> bool {
        &&& after.0.identity() == self.0.identity()
        &&& after.0.told() == self.0.told() + changes
        &&& after.0.played() == self.0.played()
        &&& after.0.history() == self.0.history() + told_all(changes)
    }

    /// Being given one update is being given a row of one.
    pub proof fn hears_one(&self, change: ParamChange, after: BoxedStage)
        requires
            after.0.identity() == self.0.identity(),
            after.0.told() == self.0.told().push(change),
            after.0.played() == self.0.played(),
            after.0.history() == self.0.history().push(Event::Told(change)),
        ensures
            self.hears(seq![change], after),
    {
        assert(after.0.told() =~= self.0.told() + seq![change]);
        assert(after.0.history() =~= self.0.history() + told_all(seq![change]));
    }
}

/// Whether `state` is `core` after nothing but some more blocks.
pub open spec fn descends(core: BoxedStage, state: BoxedStage) -> bool {
    &&& state.0.identity() == core.0.identity()
    &&& state.0.told() == core.0.told()
    &&& core.0.played().is_prefix_of(state.0.played())
    &&& state.0.history() == core.0.history() + played_all(
        state.0.played().skip(core.0.played().len() as int),
    )
}

/// A processor descends from itself, and what it becomes by one block more descends from what it
/// descended from.
pub proof fn one_block_more_descends(
    core: BoxedStage,
    between: BoxedStage,
    input: Seq<Seq<Sample>>,
    output: Seq<Seq<Sample>>,
    after: BoxedStage,
)
    ensures
        descends(core, core),
        descends(core, between) && between.passes(input, output, after) ==> descends(core, after),
{
    let start = core.0.played().len() as int;
    let none = core.0.played().skip(start);
    assert(core.0.history() =~= core.0.history() + played_all(none));
    if descends(core, between) && between.passes(input, output, after) {
        let earlier = between.0.played().skip(start);
        let later = after.0.played().skip(start);
        assert(later =~= earlier.push(input));
        assert(after.0.history() =~= core.0.history() + played_all(later));
    }
}

/// Whether a processor that is handed one channel may turn `input` into `output` and be left as
/// `after`.
pub open spec fn runs(
    core: BoxedStage,
    input: Seq<Sample>,
    output: Seq<Sample>,
    after: BoxedStage,
) -> bool {
    &&& output.len() == input.len()
    &&& core.passes(seq![input], seq![output], after)
}

/// Runs a processor on a block of one channel.
pub fn run_alone(core: &mut BoxedStage, io: &mut StageIo)
    requires
        old(io).wf(),
        old(io)@.len() == 1,
    ensures
        final(io).shape() == old(io).shape(),
        final(io)@.len() == 1,
        runs(*old(core), old(io)@[0], final(io)@[0], *final(core)),
{
    broadcast use StageIo::view_has_the_shape;

    let ghost input = io@;
    core.0.process(io);
    proof {
        io.view_has_the_shape();
        assert(input =~= seq![input[0]]);
        assert(io@ =~= seq![io@[0]]);
    }
}

} // verus!
