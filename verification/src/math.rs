//! The rounding arithmetic the engine relies on but does not define.

use vstd::prelude::*;

use crate::sample::Sample;

verus! {

/// Floating-point arithmetic on samples, supplied by the program the engine runs in.
///
/// Nothing is assumed of the results. The engine's contracts say which operation is applied to
/// which operands, and where its result goes; they hold whatever an implementation computes.
pub trait SampleMath: Send {
    /// The coefficient of a one-pole smoother with this time constant at this rate:
    /// `1 - exp(-1 / (time_constant_ms / 1000 * sample_rate_hz))`.
    fn one_pole_coefficient(&self, time_constant_ms: u32, sample_rate_hz: u32) -> Sample;

    /// One step of a one-pole smoother: `position + coefficient * (target - position)`.
    fn one_pole(&self, position: Sample, target: Sample, coefficient: Sample) -> Sample;

    /// Whether `position` is no further than `coefficient` from `target`.
    fn within_step(&self, position: Sample, target: Sample, coefficient: Sample) -> bool;

    /// The linear blend `from * (1 - position) + to * position`.
    fn blend(&self, from: Sample, to: Sample, position: Sample) -> Sample;

    /// The equal-power blend `outgoing * cos(t) + incoming * sin(t)` with
    /// `t = progress / total * pi / 2`.
    fn equal_power(&self, outgoing: Sample, incoming: Sample, progress: u32, total: u32) -> Sample;

    /// The linear factor of a gain in decibels.
    fn db_to_linear(&self, db: Sample) -> Sample;

    /// `a + b`.
    fn sum(&self, a: Sample, b: Sample) -> Sample;
}

/// `next` is what `math` makes of one smoothing step.
pub open spec fn stepped<A: SampleMath>(
    math: A,
    position: Sample,
    target: Sample,
    coefficient: Sample,
    next: Sample,
) -> bool {
    call_ensures(A::one_pole, (&math, position, target, coefficient), next)
}

/// `out` is what `math` makes of a linear blend.
pub open spec fn blended<A: SampleMath>(
    math: A,
    from: Sample,
    to: Sample,
    position: Sample,
    out: Sample,
) -> bool {
    call_ensures(A::blend, (&math, from, to, position), out)
}

/// `out` is what `math` makes of a sum.
pub open spec fn summed<A: SampleMath>(math: A, a: Sample, b: Sample, out: Sample) -> bool {
    call_ensures(A::sum, (&math, a, b), out)
}

/// `out` is what `math` makes of an equal-power blend.
pub open spec fn faded<A: SampleMath>(
    math: A,
    outgoing: Sample,
    incoming: Sample,
    progress: u32,
    total: u32,
    out: Sample,
) -> bool {
    call_ensures(A::equal_power, (&math, outgoing, incoming, progress, total), out)
}

/// Whether a smoothing step has only one result. Without this, two channels that take the same
/// steps may still come to stand apart.
pub open spec fn steady<A: SampleMath>(math: A) -> bool {
    forall|position: Sample, target: Sample, coefficient: Sample, a: Sample, b: Sample|
        #[trigger] stepped(math, position, target, coefficient, a) && #[trigger] stepped(
            math,
            position,
            target,
            coefficient,
            b,
        ) ==> a == b
}

/// Whether every operation of a blend, a fade or a sum has only one result.
pub open spec fn single_valued<A: SampleMath>(math: A) -> bool {
    &&& steady(math)
    &&& forall|from: Sample, to: Sample, position: Sample, a: Sample, b: Sample|
        #[trigger] blended(math, from, to, position, a) && #[trigger] blended(
            math,
            from,
            to,
            position,
            b,
        ) ==> a == b
    &&& forall|outgoing: Sample, incoming: Sample, progress: u32, total: u32, a: Sample, b: Sample|
        #[trigger] faded(math, outgoing, incoming, progress, total, a) && #[trigger] faded(
            math,
            outgoing,
            incoming,
            progress,
            total,
            b,
        ) ==> a == b
    &&& forall|x: Sample, y: Sample, a: Sample, b: Sample|
        #[trigger] summed(math, x, y, a) && #[trigger] summed(math, x, y, b) ==> a == b
}

/// Whether every operation has only one result.
pub open spec fn determined<A: SampleMath>(math: A) -> bool {
    &&& single_valued(math)
    &&& forall|position: Sample, target: Sample, coefficient: Sample, a: bool, b: bool|
        #[trigger] call_ensures(A::within_step, (&math, position, target, coefficient), a)
            && #[trigger] call_ensures(
            A::within_step,
            (&math, position, target, coefficient),
            b,
        ) ==> a == b
    &&& forall|db: Sample, a: Sample, b: Sample|
        #[trigger] call_ensures(A::db_to_linear, (&math, db), a) && #[trigger] call_ensures(
            A::db_to_linear,
            (&math, db),
            b,
        ) ==> a == b
    &&& forall|time_constant_ms: u32, rate_hz: u32, a: Sample, b: Sample|
        #[trigger] call_ensures(
            A::one_pole_coefficient,
            (&math, time_constant_ms, rate_hz),
            a,
        ) && #[trigger] call_ensures(
            A::one_pole_coefficient,
            (&math, time_constant_ms, rate_hz),
            b,
        ) ==> a == b
}

/// The result of a smoothing step that has only one.
pub open spec fn step_value<A: SampleMath>(
    math: A,
    position: Sample,
    target: Sample,
    coefficient: Sample,
) -> Sample {
    choose|next: Sample| stepped(math, position, target, coefficient, next)
}

/// The result of a blend that has only one.
pub open spec fn blend_value<A: SampleMath>(
    math: A,
    from: Sample,
    to: Sample,
    position: Sample,
) -> Sample {
    choose|out: Sample| blended(math, from, to, position, out)
}

/// The result of an equal-power blend that has only one.
pub open spec fn fade_value<A: SampleMath>(
    math: A,
    outgoing: Sample,
    incoming: Sample,
    progress: u32,
    total: u32,
) -> Sample {
    choose|out: Sample| faded(math, outgoing, incoming, progress, total, out)
}

/// Where a smoother stands after `steps` steps.
pub open spec fn position_after<A: SampleMath>(
    math: A,
    start: Sample,
    target: Sample,
    coefficient: Sample,
    steps: nat,
) -> Sample
    decreases steps,
{
    if steps == 0 {
        start
    } else {
        step_value(
            math,
            position_after(math, start, target, coefficient, (steps - 1) as nat),
            target,
            coefficient,
        )
    }
}

/// Whether an operation that has nothing to do does nothing: a smoother that has arrived stays, a
/// blend at one end is that side, and a fade at its beginning is its outgoing side. Only of finite
/// samples, since the side that is not heard is multiplied by zero. A negative zero may lose its
/// sign in a sum with zero.
pub open spec fn exact_at_rest<A: SampleMath>(math: A) -> bool {
    &&& forall|end: Sample, coefficient: Sample, next: Sample|
        (end == Sample::zero() || end == Sample::one()) && coefficient.finite()
            && #[trigger] stepped(math, end, end, coefficient, next) ==> next == end
    &&& forall|from: Sample, to: Sample, out: Sample|
        from.finite() && to.finite() && #[trigger] blended(math, from, to, Sample::one(), out)
            ==> out.same_number(to) && (to.plain() ==> out == to)
    &&& forall|from: Sample, to: Sample, out: Sample|
        from.finite() && to.finite() && #[trigger] blended(math, from, to, Sample::zero(), out)
            ==> out.same_number(from) && (from.plain() ==> out == from)
    &&& forall|outgoing: Sample, incoming: Sample, total: u32, out: Sample|
        outgoing.finite() && incoming.finite() && total >= 1 && #[trigger] faded(
            math,
            outgoing,
            incoming,
            0,
            total,
            out,
        ) ==> out.same_number(outgoing) && (outgoing.plain() ==> out == outgoing)
}

/// Whether an operation that has nothing to do does nothing, of operations that have only one
/// result. The exceptions are those of [`exact_at_rest`].
pub open spec fn exact_values<A: SampleMath>(math: A) -> bool {
    &&& forall|end: Sample, coefficient: Sample|
        (end == Sample::zero() || end == Sample::one()) && coefficient.finite()
            ==> #[trigger] step_value(math, end, end, coefficient) == end
    &&& forall|from: Sample, to: Sample|
        from.finite() && to.plain() ==> #[trigger] blend_value(math, from, to, Sample::one()) == to
    &&& forall|from: Sample, to: Sample|
        from.plain() && to.finite() ==> #[trigger] blend_value(math, from, to, Sample::zero())
            == from
    &&& forall|outgoing: Sample, incoming: Sample, total: u32|
        outgoing.plain() && incoming.finite() && total >= 1 ==> #[trigger] fade_value(
            math,
            outgoing,
            incoming,
            0,
            total,
        ) == outgoing
}

/// A smoother that has arrived stays where it is.
pub proof fn a_smoother_that_has_arrived_stays<A: SampleMath>(
    math: A,
    end: Sample,
    coefficient: Sample,
    steps: nat,
)
    requires
        exact_values(math),
        coefficient.finite(),
        end == Sample::zero() || end == Sample::one(),
    ensures
        position_after(math, end, end, coefficient, steps) == end,
    decreases steps,
{
    if steps > 0 {
        a_smoother_that_has_arrived_stays(math, end, coefficient, (steps - 1) as nat);
    }
}

/// `path` is a run of a smoother: it starts at `start` and takes one step per frame.
pub open spec fn smooth_path<A: SampleMath>(
    math: A,
    start: Sample,
    target: Sample,
    coefficient: Sample,
    path: Seq<Sample>,
) -> bool {
    &&& path.len() >= 1
    &&& path[0] == start
    &&& forall|i: int|
        0 <= i < path.len() - 1 ==> stepped(
            math,
            #[trigger] path[i],
            target,
            coefficient,
            path[i + 1],
        )
}

} // verus!
