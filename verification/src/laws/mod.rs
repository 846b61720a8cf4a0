//! What the engine's operations are for.
//!
//! The contracts beside the code relate each call to the state it leaves behind. What is stated
//! here is what a user of the engine may count on: which setting follows which update, which
//! processor is told what, which signal is heard where. It is said in terms of the values
//! themselves, so that it can be read without knowing how an operation is described elsewhere.

use vstd::prelude::*;

use crate::param::ParamChange;
use crate::sample::Sample;
use crate::stage::{BoxedStage, Event};

pub mod amp;
pub mod blend;
pub mod cabinet;
pub mod chain;
pub mod conversion;
pub mod engine;
pub mod equaliser;
pub mod filters;
pub mod handover;
pub mod noise_gate;
pub mod output;
pub mod product;
pub mod readings;
pub mod values;

verus! {

/// Whether a switch is on at this value: a number, and no less than one half.
pub open spec fn on_at(value: Sample) -> bool {
    0x3f00_0000 <= value.bits <= 0x7f80_0000
}

/// A blend that is fully open, or fully closed.
pub open spec fn open_if(open: bool) -> Sample {
    Sample {
        bits: if open {
            0x3f80_0000
        } else {
            0
        },
    }
}

/// Whether a processor has been given `changes`, one after the other, and nothing else has happened
/// to it.
pub open spec fn was_told(
    before: BoxedStage,
    changes: Seq<ParamChange>,
    after: BoxedStage,
) -> bool {
    &&& after.0.identity() == before.0.identity()
    &&& after.0.played() == before.0.played()
    &&& after.0.told() == before.0.told() + changes
    &&& after.0.history().len() == before.0.history().len() + changes.len()
    &&& before.0.history().is_prefix_of(after.0.history())
    &&& forall|k: int|
        0 <= k < changes.len() ==> after.0.history()[before.0.history().len() + k] == Event::Told(
            #[trigger] changes[k],
        )
}

/// Whether a processor has made `output` of `input`, and nothing else has happened to it.
pub open spec fn has_played(
    before: BoxedStage,
    input: Seq<Seq<Sample>>,
    output: Seq<Seq<Sample>>,
    after: BoxedStage,
) -> bool {
    &&& before.0.renders(input, output)
    &&& output.len() == input.len()
    &&& forall|c: int| 0 <= c < input.len() ==> (#[trigger] output[c]).len() == input[c].len()
    &&& after.0.identity() == before.0.identity()
    &&& after.0.told() == before.0.told()
    &&& after.0.played() == before.0.played().push(input)
    &&& after.0.history() == before.0.history().push(Event::Played(input))
}

/// Whether a processor's internal state has been cleared, and nothing else has happened to it.
pub open spec fn was_cleared(before: BoxedStage, after: BoxedStage) -> bool {
    &&& after.0.identity() == before.0.identity()
    &&& after.0.told() == before.0.told()
    &&& after.0.played().len() == 0
    &&& after.0.history() == before.0.history().push(Event::Cleared)
}

/// Being told, playing and being cleared mean of a processor what they say.
pub proof fn what_is_done_to_a_processor(
    before: BoxedStage,
    changes: Seq<ParamChange>,
    input: Seq<Seq<Sample>>,
    output: Seq<Seq<Sample>>,
    after: BoxedStage,
)
    ensures
        before.hears(changes, after) ==> was_told(before, changes, after),
        before.passes(input, output, after) ==> has_played(before, input, output, after),
        before.clears_to(after) ==> was_cleared(before, after),
{
}

} // verus!
