//! A prepared resource in flight: on its way to a stage, or on its way back to be dropped.

use vstd::prelude::*;

use crate::prepare::PrepareContext;
use crate::stages::handover::Identified;
use crate::stages::ir::IrSlot;
use crate::stages::nam::NamSlot;

verus! {

/// Which stage a [`Resource`] belongs to.
#[derive(Clone, Copy, Debug, PartialEq, Eq, Structural)]
pub enum ResourceKind {
    /// Belongs to the amp-model stage.
    Nam,
    /// Belongs to the cabinet stage.
    Ir,
}

enum Payload {
    Nam(Box<NamSlot>),
    Ir(Box<IrSlot>),
}

/// A prepared resource, with the context its buffers were sized for. The receiving stage checks
/// that context against its own instead of trusting it.
pub struct Resource {
    ctx: PrepareContext,
    payload: Payload,
}

impl Resource {
    /// The slot is in order and was sized for the context it travels with.
    #[verifier::type_invariant]
    spec fn sized(self) -> bool {
        match self.payload {
            Payload::Nam(slot) => slot.wf(),
            Payload::Ir(slot) => slot.fits(self.ctx.max_frames() as nat),
        }
    }

    /// Which stage it belongs to.
    pub closed spec fn belongs_to(self) -> ResourceKind {
        match self.payload {
            Payload::Nam(_) => ResourceKind::Nam,
            Payload::Ir(_) => ResourceKind::Ir,
        }
    }

    /// The context its buffers were sized for.
    pub closed spec fn sized_for(self) -> PrepareContext {
        self.ctx
    }

    /// Which resource it is.
    pub closed spec fn identity(self) -> int {
        match self.payload {
            Payload::Nam(slot) => slot.identity(),
            Payload::Ir(slot) => slot.identity(),
        }
    }

    /// The resource that carries this model slot.
    pub closed spec fn of_nam(slot: Box<NamSlot>, ctx: PrepareContext) -> Resource {
        Resource { ctx, payload: Payload::Nam(slot) }
    }

    /// The resource that carries this response slot.
    pub closed spec fn of_ir(slot: Box<IrSlot>, ctx: PrepareContext) -> Resource {
        Resource { ctx, payload: Payload::Ir(slot) }
    }

    /// What a resource made of a slot is.
    pub broadcast proof fn made_of_nam(slot: Box<NamSlot>, ctx: PrepareContext)
        ensures
            #![trigger Resource::of_nam(slot, ctx)]
            Resource::of_nam(slot, ctx).belongs_to() == ResourceKind::Nam,
            Resource::of_nam(slot, ctx).sized_for() == ctx,
            Resource::of_nam(slot, ctx).identity() == slot.identity(),
    {
    }

    /// What a resource made of a slot is.
    pub broadcast proof fn made_of_ir(slot: Box<IrSlot>, ctx: PrepareContext)
        ensures
            #![trigger Resource::of_ir(slot, ctx)]
            Resource::of_ir(slot, ctx).belongs_to() == ResourceKind::Ir,
            Resource::of_ir(slot, ctx).sized_for() == ctx,
            Resource::of_ir(slot, ctx).identity() == slot.identity(),
    {
    }

    /// A resource of the amp-model stage carries a model slot.
    pub proof fn nam_carries_a_slot(resource: Resource)
        requires
            resource.belongs_to() == ResourceKind::Nam,
        ensures
            exists|slot: Box<NamSlot>, ctx: PrepareContext|
                resource == #[trigger] Resource::of_nam(slot, ctx),
    {
        assert(resource == Resource::of_nam(resource.payload->Nam_0, resource.ctx));
    }

    /// A resource of the cabinet stage carries a response slot.
    pub proof fn ir_carries_a_slot(resource: Resource)
        requires
            resource.belongs_to() == ResourceKind::Ir,
        ensures
            exists|slot: Box<IrSlot>, ctx: PrepareContext|
                resource == #[trigger] Resource::of_ir(slot, ctx),
    {
        assert(resource == Resource::of_ir(resource.payload->Ir_0, resource.ctx));
    }

    /// A resource determines the slot it carries and the context it was sized for.
    pub broadcast proof fn nam_is_determined(
        a: Box<NamSlot>,
        b: PrepareContext,
        c: Box<NamSlot>,
        d: PrepareContext,
    )
        requires
            #[trigger] Resource::of_nam(a, b) == #[trigger] Resource::of_nam(c, d),
        ensures
            a == c && b == d,
    {
    }

    /// A resource determines the slot it carries and the context it was sized for.
    pub broadcast proof fn ir_is_determined(
        a: Box<IrSlot>,
        b: PrepareContext,
        c: Box<IrSlot>,
        d: PrepareContext,
    )
        requires
            #[trigger] Resource::of_ir(a, b) == #[trigger] Resource::of_ir(c, d),
        ensures
            a == c && b == d,
    {
    }

    /// A model slot, ready to travel.
    pub fn nam(slot: Box<NamSlot>, ctx: PrepareContext) -> (resource: Resource)
        requires
            slot.wf(),
        ensures
            resource == Resource::of_nam(slot, ctx),
    {
        Resource { ctx, payload: Payload::Nam(slot) }
    }

    /// A response slot, ready to travel.
    pub fn ir(slot: Box<IrSlot>, ctx: PrepareContext) -> (resource: Resource)
        requires
            slot.fits(ctx.max_frames() as nat),
        ensures
            resource == Resource::of_ir(slot, ctx),
    {
        Resource { ctx, payload: Payload::Ir(slot) }
    }

    /// Which stage this belongs to.
    pub fn kind(&self) -> (kind: ResourceKind)
        ensures
            kind == self.belongs_to(),
    {
        match self.payload {
            Payload::Nam(_) => ResourceKind::Nam,
            Payload::Ir(_) => ResourceKind::Ir,
        }
    }

    /// The context its buffers were sized for.
    pub fn context(&self) -> (ctx: PrepareContext)
        ensures
            ctx == self.sized_for(),
    {
        self.ctx
    }

    /// Takes the model slot out of `offer`, if that is what it holds, and leaves `offer` untouched
    /// otherwise.
    pub fn take_nam(offer: &mut Option<Resource>) -> (taken: Option<
        (Box<NamSlot>, PrepareContext),
    >)
        ensures
            taken is Some <==> (*old(offer) matches Some(r) && r.belongs_to() == ResourceKind::Nam),
            taken matches Some(t) ==> *old(offer) == Some(Resource::of_nam(t.0, t.1)) && (
            *final(offer)) is None && t.0.wf(),
            taken is None ==> *final(offer) == *old(offer),
    {
        match offer.take() {
            Some(resource) => {
                proof {
                    use_type_invariant(&resource);
                }
                match resource {
                    Resource { ctx, payload: Payload::Nam(slot) } => Some((slot, ctx)),
                    other => {
                        *offer = Some(other);
                        None
                    },
                }
            },
            None => None,
        }
    }

    /// Takes the response slot out of `offer`, if that is what it holds, and leaves `offer`
    /// untouched otherwise.
    pub fn take_ir(offer: &mut Option<Resource>) -> (taken: Option<(Box<IrSlot>, PrepareContext)>)
        ensures
            taken is Some <==> (*old(offer) matches Some(r) && r.belongs_to() == ResourceKind::Ir),
            taken matches Some(t) ==> *old(offer) == Some(Resource::of_ir(t.0, t.1)) && (
            *final(offer)) is None && t.0.fits(t.1.max_frames() as nat),
            taken is None ==> *final(offer) == *old(offer),
    {
        match offer.take() {
            Some(resource) => {
                proof {
                    use_type_invariant(&resource);
                }
                match resource {
                    Resource { ctx, payload: Payload::Ir(slot) } => Some((slot, ctx)),
                    other => {
                        *offer = Some(other);
                        None
                    },
                }
            },
            None => None,
        }
    }
}

} // verus!
