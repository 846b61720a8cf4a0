//! What a handover is for: one resource takes over from another without either being lost, in a
//! time that depends on the rate and the newcomer alone.

use vstd::prelude::*;

use crate::prepare::PrepareContext;
use crate::stages::handover::{handover_length, Crossfade, Handover, Parked};

verus! {

/// A handover lasts twenty milliseconds, to the nearest sample, and at least one sample.
pub proof fn a_handover_lasts_twenty_milliseconds(rate_hz: u32)
    ensures
        handover_length(rate_hz) >= 1,
        rate_hz >= 25 ==> 1000 * handover_length(rate_hz) <= 20 * rate_hz + 500,
        rate_hz >= 25 ==> 20 * rate_hz < 1000 * handover_length(rate_hz) + 500,
        rate_hz < 25 ==> handover_length(rate_hz) == 1,
{
}

/// A fade moves by one frame at a time: first through its hold, then through its own length, and
/// then no more. Its length never changes.
pub proof fn a_fade_moves_frame_by_frame(fade: Crossfade, frames: nat)
    requires
        fade.wf(),
    ensures
        fade.after(0) == fade,
        fade.hold > 0 ==> fade.after(1) == (Crossfade { hold: (fade.hold - 1) as u32, ..fade }),
        fade.hold == 0 && fade.remaining > 0 ==> fade.after(1) == (Crossfade {
            remaining: (fade.remaining - 1) as u32,
            ..fade
        }),
        fade.hold == 0 && fade.remaining == 0 ==> fade.after(1) == fade,
        fade.after(frames as int).after(1) == fade.after((frames + 1) as int),
        fade.progress() + fade.remaining == fade.total,
{
}

/// A handover that begins leaves the outgoing slot where it is, puts the incoming one beside it,
/// and starts a whole fade, held for as long as asked. A slot that was still on its way in goes to
/// the pen, with what it was prepared for.
pub proof fn a_handover_begins_beside_what_is_there<T>(
    before: Handover<T>,
    incoming: Option<Box<T>>,
    hold: u32,
)
    ensures
        ({
            let after = before.started(incoming, hold);
            &&& after.active == before.active
            &&& after.inactive == incoming
            &&& after.fade == Some(
                Crossfade { hold, remaining: before.length, total: before.length },
            )
            &&& after.length == before.length
            &&& after.prepared_for == before.prepared_for
            &&& before.inactive matches Some(slot) ==> after.parked == Some(
                Parked { slot, ctx: before.prepared_for },
            )
            &&& before.inactive is None ==> after.parked is None
        }),
{
}

/// A handover that is over leaves the incoming slot in service and nothing beside it, and the
/// outgoing slot in the pen, with what it was prepared for.
pub proof fn a_handover_ends_with_the_newcomer_in_service<T>(before: Handover<T>)
    ensures
        ({
            let after = before.completed();
            &&& after.active == before.inactive
            &&& after.inactive is None
            &&& after.fade is None
            &&& after.length == before.length
            &&& after.prepared_for == before.prepared_for
            &&& before.active matches Some(slot) ==> after.parked == Some(
                Parked { slot, ctx: before.prepared_for },
            )
            &&& before.active is None ==> after.parked is None
        }),
        before.overdue() <==> (before.fade matches Some(fade) && fade.remaining == 0),
        before.sounds() <==> before.active is Some || before.inactive is Some,
{
}

/// What a block does to a handover: without one nothing moves; with one the fade moves on by the
/// block, and when that ends it, and the pen is free, the newcomer takes over. While the pen is
/// occupied the fade waits at its end, however long that is, and loses nothing.
pub proof fn a_block_moves_a_handover_on<T>(
    before: Handover<T>,
    active: Option<Box<T>>,
    inactive: Option<Box<T>>,
    frames: nat,
)
    requires
        before.fade matches Some(fade) ==> fade.wf(),
    ensures
        ({
            let after = before.moved_on(active, inactive, frames as int);
            &&& after.length == before.length
            &&& after.prepared_for == before.prepared_for
            &&& before.fade is None ==> after.active == active && after.inactive == inactive
                && after.fade is None && after.parked == before.parked
            &&& before.fade matches Some(fade) ==> {
                let over = frames >= fade.hold + fade.remaining;
                &&& !over || before.parked is Some ==> after.active == active && after.inactive
                    == inactive && after.parked == before.parked && after.fade is Some
                    && after.fade->0.total == fade.total && (after.fade->0.remaining == 0 <==> over)
                &&& over && before.parked is None ==> after.active == inactive && after.inactive
                    is None && after.fade is None
                &&& over && before.parked is None ==> (active matches Some(slot) ==> after.parked
                    == Some(Parked { slot, ctx: before.prepared_for }))
                &&& over && before.parked is None && active is None ==> after.parked is None
            }
        }),
{
}

/// A new pair of slots is empty.
pub proof fn nothing_is_loaded_at_first<T>(ctx: PrepareContext)
    ensures
        Handover::<T>::empty(ctx).active is None,
        Handover::<T>::empty(ctx).inactive is None,
        Handover::<T>::empty(ctx).fade is None,
        Handover::<T>::empty(ctx).parked is None,
        Handover::<T>::empty(ctx).prepared_for == ctx,
        Handover::<T>::empty(ctx).length == handover_length(ctx.rate()),
{
}

} // verus!
