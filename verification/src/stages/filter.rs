//! What a filter is to become, as the stages decide it, and how it is told. Designing coefficients
//! for that, and moving to them, is the filter's own business.

use vstd::prelude::*;

use crate::param::{ParamChange, ParamId};
use crate::sample::Sample;
use crate::stage::{told_all, BoxedStage, Stage};

verus! {

/// The shapes of the filters in use.
#[derive(Clone, Copy, Debug, PartialEq, Eq, Structural)]
pub enum FilterKind {
    /// Passes everything above its corner.
    HighPass,
    /// Lifts or lowers everything below its corner.
    LowShelf,
    /// Lifts or lowers the surroundings of its centre.
    Peaking,
    /// Lifts or lowers everything above its corner.
    HighShelf,
    /// Passes everything below its corner.
    LowPass,
}

impl FilterKind {
    /// The number of this shape.
    #[verifier::allow_in_spec]
    pub fn number(self) -> u32
        returns
            (match self {
                FilterKind::HighPass => 0u32,
                FilterKind::LowShelf => 1u32,
                FilterKind::Peaking => 2u32,
                FilterKind::HighShelf => 3u32,
                FilterKind::LowPass => 4u32,
            }),
    {
        match self {
            FilterKind::HighPass => 0,
            FilterKind::LowShelf => 1,
            FilterKind::Peaking => 2,
            FilterKind::HighShelf => 3,
            FilterKind::LowPass => 4,
        }
    }

    /// The shape with this number. Numbers that no shape has count as the last.
    #[verifier::allow_in_spec]
    pub fn of_number(number: u32) -> FilterKind
        returns
            (if number == 0 {
                FilterKind::HighPass
            } else if number == 1 {
                FilterKind::LowShelf
            } else if number == 2 {
                FilterKind::Peaking
            } else if number == 3 {
                FilterKind::HighShelf
            } else {
                FilterKind::LowPass
            }),
    {
        if number == 0 {
            FilterKind::HighPass
        } else if number == 1 {
            FilterKind::LowShelf
        } else if number == 2 {
            FilterKind::Peaking
        } else if number == 3 {
            FilterKind::HighShelf
        } else {
            FilterKind::LowPass
        }
    }
}

/// The quality factor of a filter.
#[derive(Clone, Copy, Debug, PartialEq, Eq, Structural)]
pub enum FilterQ {
    /// Maximally flat: one over the square root of two.
    Butterworth,
    /// A shelf of unit slope, which takes no quality factor.
    UnitSlope,
    /// As given.
    Given(Sample),
}

/// What a filter is to become.
#[derive(Clone, Copy, Debug, PartialEq, Eq, Structural)]
pub enum FilterTarget {
    /// No effect.
    Identity,
    /// A designed shape.
    Design {
        /// The shape.
        kind: FilterKind,
        /// The corner or centre frequency, in hertz.
        freq_hz: Sample,
        /// The quality factor.
        q: FilterQ,
        /// The gain, in decibels. Zero for the shapes that have none.
        gain_db: Sample,
    },
}

impl FilterQ {
    /// The number of this rule.
    #[verifier::allow_in_spec]
    pub fn rule(self) -> u32
        returns
            (match self {
                FilterQ::Butterworth => 0u32,
                FilterQ::UnitSlope => 1u32,
                FilterQ::Given(_) => 2u32,
            }),
    {
        match self {
            FilterQ::Butterworth => 0,
            FilterQ::UnitSlope => 1,
            FilterQ::Given(_) => 2,
        }
    }

    /// The quality factor that is given, or zero.
    #[verifier::allow_in_spec]
    pub fn value(self) -> Sample
        returns
            (match self {
                FilterQ::Given(q) => q,
                _ => Sample::zero(),
            }),
    {
        match self {
            FilterQ::Given(q) => q,
            _ => Sample::zero(),
        }
    }

    /// The quality factor by this rule, with this value.
    #[verifier::allow_in_spec]
    pub fn by_rule(rule: u32, value: Sample) -> FilterQ
        returns
            (if rule == 0 {
                FilterQ::Butterworth
            } else if rule == 1 {
                FilterQ::UnitSlope
            } else {
                FilterQ::Given(value)
            }),
    {
        if rule == 0 {
            FilterQ::Butterworth
        } else if rule == 1 {
            FilterQ::UnitSlope
        } else {
            FilterQ::Given(value)
        }
    }
}

/// The parameters by which a filter is told what to become. Counts and numbers travel as bit
/// patterns, so that none of them is rounded.
#[derive(Clone, Copy, Debug, PartialEq, Eq, Structural)]
pub struct FilterPort {
    /// Over how many samples to move there.
    pub ramp_samples: ParamId,
    /// The shape, by its number.
    pub kind: ParamId,
    /// The corner or centre frequency, in hertz.
    pub freq_hz: ParamId,
    /// The gain, in decibels.
    pub gain_db: ParamId,
    /// The rule for the quality factor, by its number.
    pub q_rule: ParamId,
    /// The quality factor, where one is given.
    pub q: ParamId,
    /// Whether to have any effect. This comes last, and sets the filter moving.
    pub engaged: ParamId,
}

impl FilterPort {
    /// No parameter does the work of two.
    pub open spec fn distinct(self) -> bool {
        let ids = seq![
            self.ramp_samples,
            self.kind,
            self.freq_hz,
            self.gain_db,
            self.q_rule,
            self.q,
            self.engaged,
        ];
        forall|i: int, j: int| 0 <= i < j < ids.len() ==> ids[i] != ids[j]
    }
}

/// A count, as a bit pattern.
pub open spec fn in_bits(n: u32) -> Sample {
    Sample { bits: n }
}

/// Over how many samples a filter moves to a new target: one largest block.
pub open spec fn one_block(max_block_size: usize) -> u32 {
    if max_block_size <= u32::MAX {
        max_block_size as u32
    } else {
        u32::MAX
    }
}

/// Over how many samples a filter moves to a new target: one largest block.
pub fn one_block_of_samples(max_block_size: usize) -> (samples: u32)
    ensures
        samples == one_block(max_block_size),
{
    if max_block_size <= u32::MAX as usize {
        max_block_size as u32
    } else {
        u32::MAX
    }
}

/// What a filter is told when it is to become `target` over `ramp_samples` samples, in order.
pub open spec fn briefing(port: FilterPort, target: FilterTarget, ramp_samples: u32) -> Seq<
    ParamChange,
> {
    let ramp = ParamChange { id: port.ramp_samples, value: in_bits(ramp_samples) };
    match target {
        FilterTarget::Identity => seq![
            ramp,
            ParamChange { id: port.engaged, value: Sample::zero() },
        ],
        FilterTarget::Design { kind, freq_hz, q, gain_db } => seq![
            ramp,
            ParamChange { id: port.kind, value: in_bits(kind.number()) },
            ParamChange { id: port.freq_hz, value: freq_hz },
            ParamChange { id: port.gain_db, value: gain_db },
            ParamChange { id: port.q_rule, value: in_bits(q.rule()) },
            ParamChange { id: port.q, value: q.value() },
            ParamChange { id: port.engaged, value: Sample::one() },
        ],
    }
}

/// Tells a filter to become `target` over `ramp_samples` samples.
pub fn brief(filter: &mut BoxedStage, port: &FilterPort, target: FilterTarget, ramp_samples: u32)
    ensures
        old(filter).hears(briefing(*port, target, ramp_samples), *final(filter)),
{
    filter.0.apply(
        ParamChange { id: port.ramp_samples, value: Sample::from_bits(ramp_samples) },
    );
    match target {
        FilterTarget::Identity => {
            filter.0.apply(ParamChange { id: port.engaged, value: Sample::zero() });
        },
        FilterTarget::Design { kind, freq_hz, q, gain_db } => {
            filter.0.apply(
                ParamChange { id: port.kind, value: Sample::from_bits(kind.number()) },
            );
            filter.0.apply(ParamChange { id: port.freq_hz, value: freq_hz });
            filter.0.apply(ParamChange { id: port.gain_db, value: gain_db });
            filter.0.apply(ParamChange { id: port.q_rule, value: Sample::from_bits(q.rule()) });
            filter.0.apply(ParamChange { id: port.q, value: q.value() });
            filter.0.apply(ParamChange { id: port.engaged, value: Sample::one() });
        },
    }
    let ghost all = briefing(*port, target, ramp_samples);
    assert(filter.0.told() =~= old(filter).0.told() + all);
    assert(filter.0.history() =~= old(filter).0.history() + told_all(all));
}

/// A filter's new target, and over how many samples it is to move there.
#[derive(Clone, Copy, Debug, PartialEq, Eq, Structural)]
pub struct FilterMove {
    /// What the filter is to become.
    pub target: FilterTarget,
    /// Over how many samples.
    pub ramp_samples: u32,
}

/// The filter's end of being told what to become: it collects what it is told until it is to move.
#[derive(Clone, Copy, Debug, PartialEq, Eq, Structural)]
pub struct FilterOrders {
    /// Over how many samples to move.
    pub ramp_samples: u32,
    /// The shape, by its number.
    pub kind: u32,
    /// The corner or centre frequency, in hertz.
    pub freq_hz: Sample,
    /// The gain, in decibels.
    pub gain_db: Sample,
    /// The rule for the quality factor, by its number.
    pub q_rule: u32,
    /// The quality factor, where one is given.
    pub q: Sample,
}

impl FilterOrders {
    /// A filter that has not been told anything.
    pub fn new() -> (orders: FilterOrders)
        ensures
            orders == (FilterOrders {
                ramp_samples: 0,
                kind: 0,
                freq_hz: Sample::zero(),
                gain_db: Sample::zero(),
                q_rule: 0,
                q: Sample::zero(),
            }),
    {
        FilterOrders {
            ramp_samples: 0,
            kind: 0,
            freq_hz: Sample::zero(),
            gain_db: Sample::zero(),
            q_rule: 0,
            q: Sample::zero(),
        }
    }

    /// What the orders call for.
    pub open spec fn called_for(self, engaged: bool) -> FilterMove {
        let target = if engaged {
            FilterTarget::Design {
                kind: FilterKind::of_number(self.kind),
                freq_hz: self.freq_hz,
                q: FilterQ::by_rule(self.q_rule, self.q),
                gain_db: self.gain_db,
            }
        } else {
            FilterTarget::Identity
        };
        FilterMove { target, ramp_samples: self.ramp_samples }
    }

    /// The orders once one more change has been heard, and the move it calls for, if it is the
    /// last.
    pub open spec fn after(self, port: FilterPort, change: ParamChange) -> (
        FilterOrders,
        Option<FilterMove>,
    ) {
        if change.id == port.ramp_samples {
            (FilterOrders { ramp_samples: change.value.bits, ..self }, None)
        } else if change.id == port.kind {
            (FilterOrders { kind: change.value.bits, ..self }, None)
        } else if change.id == port.freq_hz {
            (FilterOrders { freq_hz: change.value, ..self }, None)
        } else if change.id == port.gain_db {
            (FilterOrders { gain_db: change.value, ..self }, None)
        } else if change.id == port.q_rule {
            (FilterOrders { q_rule: change.value.bits, ..self }, None)
        } else if change.id == port.q {
            (FilterOrders { q: change.value, ..self }, None)
        } else if change.id == port.engaged {
            (self, Some(self.called_for(change.on())))
        } else {
            (self, None)
        }
    }

    /// The orders once a list of changes has been heard, and the move the last of them calls for.
    pub open spec fn after_all(self, port: FilterPort, changes: Seq<ParamChange>) -> (
        FilterOrders,
        Option<FilterMove>,
    )
        decreases changes.len(),
    {
        if changes.len() == 0 {
            (self, None)
        } else {
            self.after_all(port, changes.drop_last()).0.after(port, changes.last())
        }
    }

    /// Takes one change in, and says where to move, once there is somewhere to move to.
    pub fn hear(&mut self, port: &FilterPort, change: ParamChange) -> (to: Option<FilterMove>)
        ensures
            (*final(self), to) == old(self).after(*port, change),
    {
        if change.id == port.ramp_samples {
            self.ramp_samples = change.value.to_bits();
            None
        } else if change.id == port.kind {
            self.kind = change.value.to_bits();
            None
        } else if change.id == port.freq_hz {
            self.freq_hz = change.value;
            None
        } else if change.id == port.gain_db {
            self.gain_db = change.value;
            None
        } else if change.id == port.q_rule {
            self.q_rule = change.value.to_bits();
            None
        } else if change.id == port.q {
            self.q = change.value;
            None
        } else if change.id == port.engaged {
            let target = if change.switches_on() {
                FilterTarget::Design {
                    kind: FilterKind::of_number(self.kind),
                    freq_hz: self.freq_hz,
                    q: FilterQ::by_rule(self.q_rule, self.q),
                    gain_db: self.gain_db,
                }
            } else {
                FilterTarget::Identity
            };
            Some(FilterMove { target, ramp_samples: self.ramp_samples })
        } else {
            None
        }
    }
}

/// A filter that is told to become something moves to just that, in just that time, whatever it was
/// told before.
pub proof fn a_briefed_filter_knows_its_target(
    orders: FilterOrders,
    port: FilterPort,
    target: FilterTarget,
    ramp_samples: u32,
)
    requires
        port.distinct(),
    ensures
        orders.after_all(port, briefing(port, target, ramp_samples)).1 == Some(
            FilterMove { target, ramp_samples },
        ),
{
    let told = briefing(port, target, ramp_samples);
    let ids = seq![
        port.ramp_samples,
        port.kind,
        port.freq_hz,
        port.gain_db,
        port.q_rule,
        port.q,
        port.engaged,
    ];
    assert(forall|i: int, j: int| 0 <= i < j < ids.len() ==> ids[i] != ids[j]);
    reveal_with_fuel(FilterOrders::after_all, 8);
    match target {
        FilterTarget::Identity => {
            assert(told.drop_last() =~= seq![told[0]]);
            assert(told.drop_last().drop_last() =~= Seq::<ParamChange>::empty());
        },
        FilterTarget::Design { kind, freq_hz, q, gain_db } => {
            assert(told.drop_last() =~= told.take(6));
            assert(told.take(6).drop_last() =~= told.take(5));
            assert(told.take(5).drop_last() =~= told.take(4));
            assert(told.take(4).drop_last() =~= told.take(3));
            assert(told.take(3).drop_last() =~= told.take(2));
            assert(told.take(2).drop_last() =~= told.take(1));
            assert(told.take(1).drop_last() =~= Seq::<ParamChange>::empty());
        },
    }
}

/// A cut filter: a maximally flat high-pass or low-pass while it is switched on, nothing otherwise.
pub open spec fn cut(kind: FilterKind, on: bool, freq_hz: Sample) -> FilterTarget {
    if on {
        FilterTarget::Design { kind, freq_hz, q: FilterQ::Butterworth, gain_db: Sample::zero() }
    } else {
        FilterTarget::Identity
    }
}

/// What a cut filter is to become.
pub fn cut_target(kind: FilterKind, on: bool, freq_hz: Sample) -> (target: FilterTarget)
    ensures
        target == cut(kind, on, freq_hz),
{
    if on {
        FilterTarget::Design { kind, freq_hz, q: FilterQ::Butterworth, gain_db: Sample::zero() }
    } else {
        FilterTarget::Identity
    }
}

} // verus!
