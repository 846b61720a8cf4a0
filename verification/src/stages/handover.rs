//! Swapping one prepared resource for another while audio runs.
//!
//! A resource stage holds two slots. Installing puts the new resource into the inactive one and
//! starts an equal-power crossfade towards it; when the fade is over the slots change places. What
//! leaves the stage is parked, never dropped, until it can be handed back to the worker.

use vstd::prelude::*;

use crate::prepare::PrepareContext;

verus! {

/// The length of a handover crossfade in milliseconds, shared by every resource stage.
pub const HANDOVER_CROSSFADE_MS: u64 = 20;

/// The length of a handover crossfade in samples: the milliseconds at this rate, to the nearest
/// sample, and never less than one.
pub open spec fn handover_length(rate_hz: u32) -> u32 {
    let samples = (rate_hz * HANDOVER_CROSSFADE_MS + 500) / 1000;
    if samples >= 1 {
        samples as u32
    } else {
        1
    }
}

/// Computes the length of a handover crossfade in samples.
pub fn handover_samples(rate_hz: u32) -> (samples: u32)
    ensures
        samples == handover_length(rate_hz),
        samples >= 1,
{
    let scaled: u64 = rate_hz as u64 * HANDOVER_CROSSFADE_MS + 500;
    let samples: u32 = (scaled / 1000) as u32;
    if samples >= 1 {
        samples
    } else {
        1
    }
}

/// How far a handover has come.
///
/// The fade does not move while `hold` is counting down: a resource whose pipeline has to fill
/// before it sounds is given that time first, with the outgoing side at full level.
#[derive(Clone, Copy, Debug, PartialEq, Eq, Structural)]
pub struct Crossfade {
    /// Frames until the fade starts to move.
    pub hold: u32,
    /// Frames until the fade is over, once it moves.
    pub remaining: u32,
    /// The length of the fade.
    pub total: u32,
}

impl Crossfade {
    /// The fade is not longer than its length, and untouched while it is held.
    pub open spec fn wf(self) -> bool {
        &&& self.total >= 1
        &&& self.remaining <= self.total
        &&& self.hold > 0 ==> self.remaining == self.total
    }

    /// A fade that has not begun.
    pub open spec fn fresh(hold: u32, total: u32) -> Crossfade {
        Crossfade { hold, remaining: total, total }
    }

    /// How many steps of the fade have been taken.
    pub open spec fn progress(self) -> u32 {
        (self.total - self.remaining) as u32
    }

    /// Where the fade stands `frames` frames later.
    pub open spec fn after(self, frames: int) -> Crossfade {
        if frames <= self.hold {
            Crossfade { hold: (self.hold - frames) as u32, ..self }
        } else if frames - self.hold <= self.remaining {
            Crossfade {
                hold: 0,
                remaining: (self.remaining - (frames - self.hold)) as u32,
                total: self.total,
            }
        } else {
            Crossfade { hold: 0, remaining: 0, total: self.total }
        }
    }

    /// Moves on by one frame.
    pub fn advance(&mut self)
        requires
            old(self).wf(),
        ensures
            final(self).wf(),
            *final(self) == old(self).after(1),
    {
        if self.hold > 0 {
            self.hold = self.hold - 1;
        } else if self.remaining > 0 {
            self.remaining = self.remaining - 1;
        }
    }

    /// How many steps of the fade have been taken.
    pub fn taken(&self) -> (steps: u32)
        requires
            self.wf(),
        ensures
            steps == self.progress(),
    {
        self.total - self.remaining
    }
}

/// Where a fade stands depends on how many frames have gone by, not on how they were divided into
/// blocks.
pub proof fn fade_does_not_depend_on_the_division(fade: Crossfade, first: nat, second: nat)
    requires
        fade.wf(),
    ensures
        fade.after(first as int).wf(),
        fade.after(first as int).after(second as int) == fade.after((first + second) as int),
{
}

/// A fresh fade stays at its beginning for as long as it is held and for one frame more, moves by
/// one step per frame from there on, and is over after its length.
pub proof fn fade_starts_when_the_hold_is_over(hold: u32, total: u32, frame: nat)
    requires
        total >= 1,
    ensures
        frame <= hold ==> Crossfade::fresh(hold, total).after(frame as int).progress() == 0,
        hold <= frame <= hold + total ==> Crossfade::fresh(hold, total).after(
            frame as int,
        ).progress() == frame - hold,
        frame >= hold + total ==> Crossfade::fresh(hold, total).after(frame as int).remaining == 0,
{
}

/// Something that keeps its identity while it is processed and moved around.
pub trait Identified {
    /// Which one it is.
    spec fn identity(&self) -> int;
}

/// A slot that has left its stage's service, with the context it was prepared for.
pub struct Parked<T> {
    /// The slot.
    pub slot: Box<T>,
    /// What it was prepared for.
    pub ctx: PrepareContext,
}

/// The two slots of a resource stage and whatever stands between them.
pub struct Handover<T> {
    /// The slot in service, or the outgoing one during a fade.
    pub active: Option<Box<T>>,
    /// The incoming slot during a fade; empty otherwise, and empty in a fade towards nothing.
    pub inactive: Option<Box<T>>,
    /// The fade under way, if any.
    pub fade: Option<Crossfade>,
    /// The length of a fade in samples.
    pub length: u32,
    /// What the stage is prepared for.
    pub prepared_for: PrepareContext,
    /// A slot waiting to be handed back to the worker.
    pub parked: Option<Parked<T>>,
}

/// 1 if the slot is there and is the one asked for, else 0.
pub open spec fn copies_in<T: Identified>(slot: Option<Box<T>>, id: int) -> nat {
    match slot {
        Some(s) => if s.identity() == id {
            1
        } else {
            0
        },
        None => 0,
    }
}

impl<T: Identified> Handover<T> {
    /// How many times the resource `id` is held: active, inactive or parked.
    pub open spec fn copies(&self, id: int) -> nat {
        copies_in(self.active, id) + copies_in(self.inactive, id) + match self.parked {
            Some(p) => if p.slot.identity() == id {
                1nat
            } else {
                0nat
            },
            None => 0nat,
        }
    }
}

/// Which resource is in a slot.
pub open spec fn occupant<T: Identified>(slot: Option<Box<T>>) -> Option<int> {
    match slot {
        Some(s) => Some(s.identity()),
        None => None,
    }
}

impl<T: Identified> Handover<T> {
    /// Whether a block of this many frames ends the fade and completes the handover.
    pub open spec fn settles_after(&self, frames: int) -> bool {
        self.parked is None && (self.fade matches Some(fade) && fade.after(frames).remaining == 0)
    }

    /// Whether `after` is this handover, a block of `frames` frames later: the fade has moved on by
    /// that much, and if that ended it the incoming slot is in service and the outgoing one parked.
    pub open spec fn moves_on_to(&self, after: Handover<T>, frames: int) -> bool {
        &&& after.length == self.length
        &&& after.prepared_for == self.prepared_for
        &&& if self.settles_after(frames) {
            &&& occupant(after.active) == occupant(self.inactive)
            &&& after.inactive is None
            &&& after.fade is None
            &&& match self.active {
                Some(slot) => after.parked matches Some(p) && p.slot.identity() == slot.identity()
                    && p.ctx == self.prepared_for,
                None => after.parked is None,
            }
        } else {
            &&& occupant(after.active) == occupant(self.active)
            &&& occupant(after.inactive) == occupant(self.inactive)
            &&& after.fade == match self.fade {
                Some(fade) => Some(fade.after(frames)),
                None => None,
            }
            &&& after.parked == self.parked
        }
    }
}

impl<T> Handover<T> {
    /// The state a block of `frames` frames later, where the slots have come to be `active` and
    /// `inactive`: the fade has moved on by that much, and the handover is completed if that ended
    /// it.
    pub open spec fn moved_on(
        &self,
        active: Option<Box<T>>,
        inactive: Option<Box<T>>,
        frames: int,
    ) -> Handover<T> {
        let later = Handover {
            active,
            inactive,
            fade: match self.fade {
                Some(fade) => Some(fade.after(frames)),
                None => None,
            },
            ..*self
        };
        if later.overdue() && later.parked is None {
            later.completed()
        } else {
            later
        }
    }
}

/// A block moves slots around and loses none.
pub proof fn a_block_loses_no_slot<T: Identified>(
    before: Handover<T>,
    after: Handover<T>,
    frames: int,
    id: int,
)
    requires
        before.moves_on_to(after, frames),
    ensures
        after.copies(id) == before.copies(id),
{
}

impl<T> Handover<T> {
    /// Outside a fade the inactive slot is empty.
    pub open spec fn wf(&self) -> bool {
        &&& self.length >= 1
        &&& self.fade matches Some(f) ==> f.wf()
        &&& self.fade is None ==> self.inactive is None
    }

    /// Whether there is anything to hear: a slot in service, or one on its way in.
    pub open spec fn sounds(&self) -> bool {
        self.active is Some || self.inactive is Some
    }

    /// Whether the fade has ended but could not be completed, because nothing more could be
    /// parked.
    pub open spec fn overdue(&self) -> bool {
        self.fade matches Some(f) && f.remaining == 0
    }

    /// The state after an accepted installation or unloading.
    pub open spec fn started(&self, incoming: Option<Box<T>>, hold: u32) -> Handover<T> {
        Handover {
            active: self.active,
            inactive: incoming,
            fade: Some(Crossfade::fresh(hold, self.length)),
            length: self.length,
            prepared_for: self.prepared_for,
            parked: match self.inactive {
                Some(slot) => Some(Parked { slot, ctx: self.prepared_for }),
                None => None,
            },
        }
    }

    /// The state after a fade has been completed: the incoming slot is in service and the outgoing
    /// one is parked.
    pub open spec fn completed(&self) -> Handover<T> {
        Handover {
            active: self.inactive,
            inactive: None,
            fade: None,
            length: self.length,
            prepared_for: self.prepared_for,
            parked: match self.active {
                Some(slot) => Some(Parked { slot, ctx: self.prepared_for }),
                None => None,
            },
        }
    }

    /// Nothing loaded, nothing fading, nothing parked.
    pub open spec fn empty(ctx: PrepareContext) -> Handover<T> {
        Handover {
            active: None,
            inactive: None,
            fade: None,
            length: handover_length(ctx.rate()),
            prepared_for: ctx,
            parked: None,
        }
    }

    /// Nothing loaded, nothing fading, nothing parked.
    pub fn new(ctx: PrepareContext) -> (handover: Handover<T>)
        ensures
            handover.wf(),
            handover == Handover::<T>::empty(ctx),
    {
        let length: u32 = handover_samples(ctx.sample_rate().hz());
        Handover {
            active: None,
            inactive: None,
            fade: None,
            length,
            prepared_for: ctx,
            parked: None,
        }
    }

    /// Whether there is anything to hear.
    pub fn is_sounding(&self) -> (b: bool)
        ensures
            b == self.sounds(),
    {
        self.active.is_some() || self.inactive.is_some()
    }

    /// Moves the inactive slot aside and starts a fade towards `incoming`.
    fn start(&mut self, incoming: Option<Box<T>>, hold: u32)
        requires
            old(self).wf(),
            old(self).parked is None,
        ensures
            final(self).wf(),
            *final(self) == old(self).started(incoming, hold),
    {
        let displaced: Option<Box<T>> = self.inactive.take();
        if let Some(slot) = displaced {
            self.parked = Some(Parked { slot, ctx: self.prepared_for });
        }
        self.inactive = incoming;
        self.fade = Some(Crossfade { hold, remaining: self.length, total: self.length });
    }

    /// Starts a fade towards `slot`, parking a slot that was still fading in. With something
    /// already parked there is nowhere to put that, so the slot is handed back and nothing changes.
    pub fn install(&mut self, slot: Box<T>, hold: u32) -> (refused: Option<Box<T>>)
        requires
            old(self).wf(),
        ensures
            final(self).wf(),
            old(self).parked is Some ==> refused == Some(slot) && *final(self) == *old(self),
            old(self).parked is None ==> refused is None && *final(self) == old(self).started(
                Some(slot),
                hold,
            ),
    {
        if self.parked.is_some() {
            return Some(slot);
        }
        self.start(Some(slot), hold);
        None
    }

    /// Starts a fade towards nothing. With something already parked, does nothing.
    pub fn unload(&mut self) -> (begun: bool)
        requires
            old(self).wf(),
        ensures
            final(self).wf(),
            begun == (old(self).parked is None),
            begun ==> *final(self) == old(self).started(None, 0),
            !begun ==> *final(self) == *old(self),
    {
        if self.parked.is_some() {
            return false;
        }
        self.start(None, 0);
        true
    }

    /// Ends a fade that has run its length: the incoming slot takes over and the outgoing one is
    /// parked. If something is parked already the fade stays where it is, at its end, and is
    /// completed by a later call.
    pub fn settle(&mut self) -> (done: bool)
        requires
            old(self).wf(),
        ensures
            final(self).wf(),
            done == (old(self).overdue() && old(self).parked is None),
            done ==> *final(self) == old(self).completed(),
            !done ==> *final(self) == *old(self),
    {
        let over: bool = match self.fade {
            Some(f) => f.remaining == 0,
            None => false,
        };
        if !over || self.parked.is_some() {
            return false;
        }
        let outgoing: Option<Box<T>> = self.active.take();
        if let Some(slot) = outgoing {
            self.parked = Some(Parked { slot, ctx: self.prepared_for });
        }
        self.active = self.inactive.take();
        self.fade = None;
        true
    }

    /// Parks a slot that never entered service. With something already parked, hands it back.
    pub fn park(&mut self, slot: Box<T>, ctx: PrepareContext) -> (refused: Option<Box<T>>)
        requires
            old(self).wf(),
        ensures
            final(self).wf(),
            old(self).parked is Some ==> refused == Some(slot) && *final(self) == *old(self),
            old(self).parked is None ==> refused is None && *final(self) == (Handover {
                parked: Some(Parked { slot, ctx }),
                ..*old(self)
            }),
    {
        if self.parked.is_some() {
            return Some(slot);
        }
        self.parked = Some(Parked { slot, ctx });
        None
    }

    /// Takes out what is parked.
    pub fn take_parked(&mut self) -> (parked: Option<Parked<T>>)
        requires
            old(self).wf(),
        ensures
            final(self).wf(),
            parked == old(self).parked,
            *final(self) == (Handover { parked: None, ..*old(self) }),
    {
        self.parked.take()
    }
}

/// Installing, unloading and completing a fade move slots around and lose none: every resource is
/// held as often afterwards as before, and the one that was installed once more.
pub proof fn no_slot_is_lost<T: Identified>(handover: Handover<T>, slot: Box<T>, hold: u32, id: int)
    requires
        handover.wf(),
        handover.parked is None,
    ensures
        handover.started(Some(slot), hold).copies(id) == handover.copies(id) + copies_in(
            Some(slot),
            id,
        ),
        handover.started(None, 0).copies(id) == handover.copies(id),
        handover.completed().copies(id) == handover.copies(id),
{
}

/// A handover that has begun is over once the hold and the fade have gone by, and not before: then
/// the incoming slot is in service and the outgoing one, if there was one, is parked to be handed
/// back.
pub proof fn a_handover_takes_as_long_as_its_hold_and_its_fade<T: Identified>(
    handover: Handover<T>,
    incoming: Option<Box<T>>,
    hold: u32,
    frames: nat,
    after: Handover<T>,
)
    requires
        handover.wf(),
        handover.active is Some,
        handover.inactive is None,
        handover.parked is None,
        handover.started(incoming, hold).moves_on_to(after, frames as int),
    ensures
        frames < hold + handover.length <==> after.fade is Some,
        after.fade is Some ==> occupant(after.active) == occupant(handover.active) && occupant(
            after.inactive,
        ) == occupant(incoming) && after.parked is None,
        after.fade is None ==> occupant(after.active) == occupant(incoming) && after.inactive
            is None && (after.parked matches Some(p) && p.slot.identity()
            == handover.active->0.identity()),
{
}

} // verus!
