//! Parameter identifiers and updates as the audio thread sees them.

use vstd::prelude::*;

use crate::sample::Sample;

verus! {

/// The stable number a parameter is addressed by.
#[derive(Clone, Copy, Debug, PartialEq, Eq, Structural)]
pub struct ParamId(pub u32);

/// A single parameter update, as delivered to [`crate::stage::Stage::apply`].
///
/// Carries no smoothing information: a stage that has to avoid a zipper on this value ramps
/// internally.
#[derive(Clone, Copy, Debug, PartialEq, Eq, Structural)]
pub struct ParamChange {
    /// Which parameter changed.
    pub id: ParamId,
    /// The new value. A stepped parameter's value is its index.
    pub value: Sample,
}

impl ParamChange {
    /// Whether a stepped on/off parameter is switched on by this change: its value is at least
    /// one half.
    pub open spec fn on(self) -> bool {
        self.value.reaches(Sample::half())
    }

    /// Whether a stepped on/off parameter is switched on by this change.
    pub fn switches_on(self) -> (b: bool)
        ensures
            b == self.on(),
    {
        self.value.at_least(Sample::half())
    }
}

} // verus!
