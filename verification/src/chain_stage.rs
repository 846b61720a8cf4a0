//! The links of a chain: the stages that hold resources or buffers of their own, and processors of
//! any other kind.

use vstd::prelude::*;

use crate::command::{counted_up, RetireSink};
use crate::math::SampleMath;
use crate::param::ParamChange;
use crate::prepare::PrepareContext;
use crate::resource::{Resource, ResourceKind};
use crate::sample::Sample;
use crate::stage::{BoxedStage, Stage};
use crate::stage_io::{alike, StageIo};
use crate::stages::eq::EqStage;
use crate::stages::gate::GateStage;
use crate::stages::handover::{a_block_loses_no_slot, no_slot_is_lost};
use crate::stages::ir::{IrSlot, IrStage};
use crate::stages::nam::{NamSlot, NamStage};
use crate::stages::out::OutStage;
use crate::telemetry::{newest, TelemetryEntry, TelemetrySink};

verus! {

/// One link of a chain.
pub enum ChainStage<A: SampleMath> {
    /// A processor that takes any block and holds no resource.
    Plain(BoxedStage),
    /// The noise gate.
    Gate(Box<GateStage<A>>),
    /// The amp-model stage.
    Nam(Box<NamStage<A>>),
    /// The cabinet stage.
    Ir(Box<IrStage<A>>),
    /// The equaliser.
    Eq(Box<EqStage>),
    /// The output stage.
    Out(Box<OutStage>),
}

/// 1 if `resource` is the one asked for, else 0.
pub open spec fn copies_of(resource: Resource, kind: ResourceKind, id: int) -> nat {
    if resource.belongs_to() == kind && resource.identity() == id {
        1
    } else {
        0
    }
}

/// How many times the resource asked for is in `offer`.
pub open spec fn copies_offered(offer: Option<Resource>, kind: ResourceKind, id: int) -> nat {
    match offer {
        Some(resource) => copies_of(resource, kind, id),
        None => 0,
    }
}

/// How many times the resource asked for is among `resources`.
pub open spec fn copies_among(resources: Seq<Resource>, kind: ResourceKind, id: int) -> nat
    decreases resources.len(),
{
    if resources.len() == 0 {
        0
    } else {
        copies_among(resources.drop_last(), kind, id) + copies_of(resources.last(), kind, id)
    }
}

/// One more resource counts for what it is.
pub broadcast proof fn one_more_counts(
    resources: Seq<Resource>,
    resource: Resource,
    kind: ResourceKind,
    id: int,
)
    ensures
        #[trigger] copies_among(resources.push(resource), kind, id) == copies_among(
            resources,
            kind,
            id,
        ) + copies_of(resource, kind, id),
{
    assert(resources.push(resource).drop_last() =~= resources);
}

impl<A: SampleMath> ChainStage<A> {
    /// The link is in order.
    pub open spec fn wf(&self) -> bool {
        match self {
            ChainStage::Plain(_) => true,
            ChainStage::Gate(stage) => stage.wf(),
            ChainStage::Nam(stage) => stage.wf(),
            ChainStage::Ir(stage) => stage.wf(),
            ChainStage::Eq(stage) => stage.wf(),
            ChainStage::Out(stage) => stage.wf(),
        }
    }

    /// Whether the link has room for a block of this many frames and channels.
    pub open spec fn takes(&self, frames: nat, channels: nat) -> bool {
        match self {
            ChainStage::Plain(_) => true,
            ChainStage::Gate(stage) => stage.takes(frames, channels),
            ChainStage::Nam(stage) => stage.takes(frames, channels),
            ChainStage::Ir(stage) => stage.takes(frames, channels),
            ChainStage::Eq(stage) => stage.takes(frames, channels),
            ChainStage::Out(stage) => stage.takes(frames, channels),
        }
    }

    /// Whether `after` is the same kind of link, prepared for the same context.
    pub open spec fn stays(&self, after: ChainStage<A>) -> bool {
        match (self, after) {
            (ChainStage::Plain(_), ChainStage::Plain(_)) => true,
            (ChainStage::Gate(a), ChainStage::Gate(b)) => a.prepared_for == b.prepared_for,
            (ChainStage::Nam(a), ChainStage::Nam(b)) => a.handover.prepared_for
                == b.handover.prepared_for,
            (ChainStage::Ir(a), ChainStage::Ir(b)) => a.handover.prepared_for
                == b.handover.prepared_for,
            (ChainStage::Eq(a), ChainStage::Eq(b)) => a.prepared_for == b.prepared_for,
            (ChainStage::Out(a), ChainStage::Out(b)) => a.prepared_for == b.prepared_for,
            _ => false,
        }
    }

    /// The delay the link adds, in samples.
    pub open spec fn latency(&self) -> u32 {
        match self {
            ChainStage::Plain(stage) => stage.0.latency(),
            ChainStage::Gate(_) => 0,
            ChainStage::Nam(stage) => stage.latency(),
            ChainStage::Ir(_) => 0,
            ChainStage::Eq(_) => 0,
            ChainStage::Out(_) => 0,
        }
    }

    /// How long the link goes on sounding after its input has gone silent, in samples.
    pub open spec fn tail(&self) -> u32 {
        match self {
            ChainStage::Plain(stage) => stage.0.tail(),
            ChainStage::Gate(_) => 0,
            ChainStage::Nam(_) => 0,
            ChainStage::Ir(stage) => stage.tail(),
            ChainStage::Eq(_) => 0,
            ChainStage::Out(_) => 0,
        }
    }

    /// What processing a block comes to: `output` is what the link may make of `input` in its
    /// present state, and `after` is the link then.
    pub open spec fn plays(
        &self,
        input: Seq<Seq<Sample>>,
        output: Seq<Seq<Sample>>,
        after: ChainStage<A>,
    ) -> bool {
        &&& alike(input, output)
        &&& match (self, after) {
            (ChainStage::Plain(a), ChainStage::Plain(b)) => a.passes(input, output, b),
            (ChainStage::Gate(a), ChainStage::Gate(b)) => a.plays(input, output, *b),
            (ChainStage::Nam(a), ChainStage::Nam(b)) => a.plays(input, output, *b),
            (ChainStage::Ir(a), ChainStage::Ir(b)) => a.plays(input, output, *b),
            (ChainStage::Eq(a), ChainStage::Eq(b)) => a.plays(input, output, *b),
            (ChainStage::Out(a), ChainStage::Out(b)) => a.plays(input, output, *b),
            _ => false,
        }
    }

    /// What a reset comes to.
    pub open spec fn resets_to(&self, after: ChainStage<A>) -> bool {
        match (self, after) {
            (ChainStage::Plain(a), ChainStage::Plain(b)) => a.clears_to(b),
            (ChainStage::Gate(a), ChainStage::Gate(b)) => a.resets_to(*b),
            (ChainStage::Nam(a), ChainStage::Nam(b)) => a.resets_to(*b),
            (ChainStage::Ir(a), ChainStage::Ir(b)) => a.resets_to(*b),
            (ChainStage::Eq(a), ChainStage::Eq(b)) => a.resets_to(*b),
            (ChainStage::Out(a), ChainStage::Out(b)) => a.resets_to(*b),
            _ => false,
        }
    }

    /// What taking an offered resource of the link's own kind comes to.
    pub open spec fn accepts(&self, resource: Resource, after: ChainStage<A>) -> bool {
        match (self, after) {
            (ChainStage::Nam(a), ChainStage::Nam(b)) => a.accepts(resource, *b),
            (ChainStage::Ir(a), ChainStage::Ir(b)) => a.accepts(resource, *b),
            _ => false,
        }
    }

    /// What beginning to empty the link comes to.
    pub open spec fn empties_to(&self, after: ChainStage<A>) -> bool {
        match (self, after) {
            (ChainStage::Nam(a), ChainStage::Nam(b)) => *b == a.begun(None, 0),
            (ChainStage::Ir(a), ChainStage::Ir(b)) => *b == a.begun(None, 0),
            _ => false,
        }
    }

    /// What sending back what is parked comes to.
    pub open spec fn clears_to(&self, after: ChainStage<A>) -> bool {
        match (self, after) {
            (ChainStage::Nam(a), ChainStage::Nam(b)) => *b == a.cleared(),
            (ChainStage::Ir(a), ChainStage::Ir(b)) => *b == a.cleared(),
            _ => false,
        }
    }

    /// What is parked in the link, as a resource.
    pub open spec fn parked(&self) -> Option<Resource> {
        match self {
            ChainStage::Nam(stage) => match stage.handover.parked {
                Some(p) => Some(Resource::of_nam(p.slot, p.ctx)),
                None => None,
            },
            ChainStage::Ir(stage) => match stage.handover.parked {
                Some(p) => Some(Resource::of_ir(p.slot, p.ctx)),
                None => None,
            },
            _ => None,
        }
    }

    /// What the link reports, in order.
    pub open spec fn readings(&self) -> Seq<TelemetryEntry> {
        match self {
            ChainStage::Plain(stage) => stage.0.readings(),
            ChainStage::Gate(stage) => stage.readings(),
            ChainStage::Nam(stage) => stage.readings(),
            ChainStage::Ir(stage) => stage.readings(),
            ChainStage::Eq(stage) => stage.readings(),
            ChainStage::Out(stage) => stage.readings(),
        }
    }

    /// How many times the link holds the resource asked for.
    pub open spec fn copies(&self, kind: ResourceKind, id: int) -> nat {
        match self {
            ChainStage::Nam(stage) => if kind == ResourceKind::Nam {
                stage.copies(id)
            } else {
                0
            },
            ChainStage::Ir(stage) => if kind == ResourceKind::Ir {
                stage.copies(id)
            } else {
                0
            },
            _ => 0,
        }
    }

    /// The kind of resource the link holds, if any.
    pub open spec fn holds(&self) -> Option<ResourceKind> {
        match self {
            ChainStage::Nam(_) => Some(ResourceKind::Nam),
            ChainStage::Ir(_) => Some(ResourceKind::Ir),
            _ => None,
        }
    }

    /// Whether a resource is parked in the link, waiting to be handed back.
    pub open spec fn has_parked(&self) -> bool {
        match self {
            ChainStage::Nam(stage) => stage.handover.parked is Some,
            ChainStage::Ir(stage) => stage.handover.parked is Some,
            _ => false,
        }
    }

    /// Whether a resource is parked in the link, waiting to be handed back.
    pub fn holds_parked(&self) -> (parked: bool)
        ensures
            parked == self.has_parked(),
    {
        match self {
            ChainStage::Nam(stage) => stage.handover.parked.is_some(),
            ChainStage::Ir(stage) => stage.handover.parked.is_some(),
            _ => false,
        }
    }

    /// Whether the link takes a resource of this kind: it holds that kind and has nothing parked.
    pub open spec fn welcomes(&self, kind: ResourceKind) -> bool {
        self.holds() == Some(kind) && !self.has_parked()
    }

    /// Processes one block in place.
    pub fn process(&mut self, io: &mut StageIo)
        requires
            old(self).wf(),
            old(io).wf(),
            old(self).takes(old(io).length(), old(io)@.len()),
        ensures
            final(self).wf(),
            old(self).stays(*final(self)),
            final(io).shape() == old(io).shape(),
            old(self).plays(old(io)@, final(io)@, *final(self)),
            forall|kind: ResourceKind, id: int| #[trigger]
                final(self).copies(kind, id) == old(self).copies(kind, id),
            old(self).has_parked() ==> final(self).has_parked(),
    {
        let ghost input = io@;
        proof {
            io.view_has_the_shape();
        }
        match self {
            ChainStage::Plain(stage) => {
                stage.0.process(io);
                proof {
                    io.view_has_the_shape();
                }
                assert(alike(input, io@));
            },
            ChainStage::Gate(stage) => {
                stage.process(io);
            },
            ChainStage::Nam(stage) => {
                let ghost before = stage.handover;
                let ghost frames = io@[0].len() as int;
                stage.process(io);
                proof {
                    assert forall|id: int| #[trigger]
                        stage.handover.copies(id) == before.copies(id) by {
                        a_block_loses_no_slot(before, stage.handover, frames, id);
                    }
                }
            },
            ChainStage::Ir(stage) => {
                let ghost before = stage.handover;
                let ghost frames = io@[0].len() as int;
                stage.process(io);
                proof {
                    assert forall|id: int| #[trigger]
                        stage.handover.copies(id) == before.copies(id) by {
                        a_block_loses_no_slot(before, stage.handover, frames, id);
                    }
                }
            },
            ChainStage::Eq(stage) => {
                stage.process(io);
            },
            ChainStage::Out(stage) => {
                stage.process(io);
            },
        }
        proof {
            io.view_has_the_shape();
        }
        assert(alike(input, io@));
    }

    /// Clears internal state without changing parameters.
    pub fn reset(&mut self)
        requires
            old(self).wf(),
        ensures
            final(self).wf(),
            old(self).stays(*final(self)),
            old(self).resets_to(*final(self)),
            forall|kind: ResourceKind, id: int| #[trigger]
                final(self).copies(kind, id) == old(self).copies(kind, id),
            final(self).has_parked() == old(self).has_parked(),
    {
        match self {
            ChainStage::Plain(stage) => stage.0.reset(),
            ChainStage::Gate(stage) => stage.reset(),
            ChainStage::Nam(stage) => stage.reset(),
            ChainStage::Ir(stage) => stage.reset(),
            ChainStage::Eq(stage) => stage.reset(),
            ChainStage::Out(stage) => stage.reset(),
        }
    }

    /// The delay the link adds, in samples.
    pub fn latency_samples(&self) -> (samples: u32)
        ensures
            samples == self.latency(),
    {
        match self {
            ChainStage::Plain(stage) => stage.0.latency_samples(),
            ChainStage::Gate(stage) => stage.latency_samples(),
            ChainStage::Nam(stage) => stage.latency_samples(),
            ChainStage::Ir(stage) => stage.latency_samples(),
            ChainStage::Eq(stage) => stage.latency_samples(),
            ChainStage::Out(stage) => stage.latency_samples(),
        }
    }

    /// How long the link goes on sounding after its input has gone silent, in samples.
    pub fn tail_samples(&self) -> (samples: u32)
        ensures
            samples == self.tail(),
    {
        match self {
            ChainStage::Plain(stage) => stage.0.tail_samples(),
            ChainStage::Gate(stage) => stage.tail_samples(),
            ChainStage::Nam(stage) => stage.tail_samples(),
            ChainStage::Ir(stage) => stage.tail_samples(),
            ChainStage::Eq(stage) => stage.tail_samples(),
            ChainStage::Out(stage) => stage.tail_samples(),
        }
    }

    /// What a parameter update comes to.
    pub open spec fn applies(&self, change: ParamChange, after: ChainStage<A>) -> bool {
        match (self, after) {
            (ChainStage::Plain(a), ChainStage::Plain(b)) => a.hears(seq![change], b),
            (ChainStage::Gate(a), ChainStage::Gate(b)) => a.applies(change, *b),
            (ChainStage::Nam(a), ChainStage::Nam(b)) => *b == a.applied(change),
            (ChainStage::Ir(a), ChainStage::Ir(b)) => a.applies(change, *b),
            (ChainStage::Eq(a), ChainStage::Eq(b)) => a.applies(change, *b),
            (ChainStage::Out(a), ChainStage::Out(b)) => a.applies(change, *b),
            _ => false,
        }
    }

    /// Applies a parameter update, ignoring any parameter the link does not own.
    pub fn apply(&mut self, change: ParamChange)
        requires
            old(self).wf(),
        ensures
            final(self).wf(),
            old(self).stays(*final(self)),
            old(self).applies(change, *final(self)),
            forall|kind: ResourceKind, id: int| #[trigger]
                final(self).copies(kind, id) == old(self).copies(kind, id),
            final(self).has_parked() == old(self).has_parked(),
    {
        match self {
            ChainStage::Plain(stage) => {
                let ghost before = *stage;
                stage.0.apply(change);
                proof {
                    before.hears_one(change, *stage);
                }
            },
            ChainStage::Gate(stage) => stage.apply(change),
            ChainStage::Nam(stage) => stage.apply(change),
            ChainStage::Ir(stage) => stage.apply(change),
            ChainStage::Eq(stage) => stage.apply(change),
            ChainStage::Out(stage) => stage.apply(change),
        }
    }

    /// Writes the link's present readings into `out`.
    pub fn telemetry(&self, out: &mut TelemetrySink<'_>)
        requires
            old(out).wf(),
        ensures
            final(out).wf(),
            final(out).room() == old(out).room(),
            final(final(out).buffer)@ == final(old(out).buffer)@,
            final(out)@ == newest(old(out)@ + self.readings(), old(out).room()),
    {
        match self {
            ChainStage::Plain(stage) => stage.0.telemetry(out),
            ChainStage::Gate(stage) => stage.telemetry(out),
            ChainStage::Nam(stage) => stage.telemetry(out),
            ChainStage::Ir(stage) => stage.telemetry(out),
            ChainStage::Eq(stage) => stage.telemetry(out),
            ChainStage::Out(stage) => stage.telemetry(out),
        }
    }

    /// Takes an offered resource if it is of the link's kind and nothing is parked; leaves any
    /// other offer as it is.
    pub fn accept_resource(&mut self, offer: &mut Option<Resource>)
        requires
            old(self).wf(),
        ensures
            final(self).wf(),
            old(self).stays(*final(self)),
            match *old(offer) {
                Some(resource) => if old(self).welcomes(resource.belongs_to()) {
                    *final(offer) == None::<Resource> && old(self).accepts(
                        resource,
                        *final(self),
                    )
                } else {
                    *final(offer) == *old(offer) && *final(self) == *old(self)
                },
                None => *final(offer) == None::<Resource> && *final(self) == *old(self),
            },
            forall|kind: ResourceKind, id: int| #[trigger]
                final(self).copies(kind, id) + copies_offered(*final(offer), kind, id)
                    == old(self).copies(kind, id) + copies_offered(*old(offer), kind, id),
    {
        broadcast use {Resource::made_of_nam, Resource::made_of_ir};

        match self {
            ChainStage::Nam(stage) => {
                let ghost before = **stage;
                stage.accept_resource(offer);
                proof {
                    if before.welcomes(*old(offer)) {
                        let resource = old(offer)->0;
                        Resource::nam_carries_a_slot(resource);
                        let (slot, ctx) = choose|slot: Box<NamSlot>, ctx: PrepareContext|
                            resource == #[trigger] Resource::of_nam(slot, ctx);
                        assert forall|id: int| #[trigger]
                            stage.handover.copies(id) == before.handover.copies(id) + copies_of(
                            resource,
                            ResourceKind::Nam,
                            id,
                        ) by {
                            no_slot_is_lost(before.handover, slot, slot.latency(), id);
                        }
                    }
                }
            },
            ChainStage::Ir(stage) => {
                let ghost before = **stage;
                stage.accept_resource(offer);
                proof {
                    if before.welcomes(*old(offer)) {
                        let resource = old(offer)->0;
                        Resource::ir_carries_a_slot(resource);
                        let (slot, ctx) = choose|slot: Box<IrSlot>, ctx: PrepareContext|
                            resource == #[trigger] Resource::of_ir(slot, ctx);
                        assert forall|id: int| #[trigger]
                            stage.handover.copies(id) == before.handover.copies(id) + copies_of(
                            resource,
                            ResourceKind::Ir,
                            id,
                        ) by {
                            no_slot_is_lost(before.handover, slot, 0, id);
                        }
                    }
                }
            },
            _ => {},
        }
    }

    /// Sends what is parked back through `out`, or keeps it if `out` has no room.
    pub fn collect_retired(&mut self, out: &mut RetireSink<'_>)
        requires
            old(self).wf(),
        ensures
            final(self).wf(),
            old(self).stays(*final(self)),
            *final(final(out).ring) == *final(old(out).ring),
            final(out).ring.ring() == old(out).ring.ring(),
            match old(self).parked() {
                Some(resource) => {
                    ||| {
                        &&& old(self).clears_to(*final(self))
                        &&& final(out).ring.sent() == old(out).ring.sent().push(resource)
                    }
                    ||| {
                        &&& *final(self) == *old(self)
                        &&& final(out).ring.sent() == old(out).ring.sent()
                    }
                },
                None => {
                    &&& *final(self) == *old(self)
                    &&& final(out).ring.sent() == old(out).ring.sent()
                },
            },
            final(out).rejected == if final(self).has_parked() {
                counted_up(old(out).rejected, 1)
            } else {
                old(out).rejected
            },
            final(out).ring.known_free() + (if old(self).has_parked() {
                1nat
            } else {
                0
            }) >= old(out).ring.known_free(),
            old(out).ring.known_free() > 0 ==> !final(self).has_parked(),
            forall|kind: ResourceKind, id: int| #[trigger]
                final(self).copies(kind, id) + copies_among(final(out).ring.sent(), kind, id)
                    == old(self).copies(kind, id) + copies_among(
                    old(out).ring.sent(),
                    kind,
                    id,
                ),
    {
        broadcast use {Resource::made_of_nam, Resource::made_of_ir, one_more_counts};

        match self {
            ChainStage::Nam(stage) => stage.collect_retired(out),
            ChainStage::Ir(stage) => stage.collect_retired(out),
            _ => {},
        }
    }

    /// Begins to empty the link, if it holds this kind of resource and nothing is parked.
    pub fn unload_resource(&mut self, kind: ResourceKind)
        requires
            old(self).wf(),
        ensures
            final(self).wf(),
            old(self).stays(*final(self)),
            if old(self).welcomes(kind) {
                old(self).empties_to(*final(self))
            } else {
                *final(self) == *old(self)
            },
            forall|k: ResourceKind, id: int| #[trigger]
                final(self).copies(k, id) == old(self).copies(k, id),
    {
        match self {
            ChainStage::Nam(stage) => {
                stage.unload_resource(kind);
            },
            ChainStage::Ir(stage) => {
                stage.unload_resource(kind);
            },
            _ => {},
        }
    }
}

} // verus!
