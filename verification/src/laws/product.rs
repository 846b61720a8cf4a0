//! What the product's chain is made of.

use vstd::prelude::*;

use crate::chain::Chain;
use crate::chain_stage::ChainStage;
use crate::laws::open_if;
use crate::math::SampleMath;
use crate::prepare::PrepareContext;
use crate::stage::StagePrep;
use crate::stages::ChainParts;

verus! {

/// The product's chain has six stages: the noise gate, then the trim, so that the threshold refers
/// to the input itself; the amp model, the cabinet, the equaliser, and the output. Each is prepared
/// for the same context.
pub proof fn the_product_has_six_stages_in_order<A: SampleMath>(
    parts: ChainParts<A>,
    ctx: PrepareContext,
    chain: Chain<A>,
)
    requires
        parts.builds(ctx, chain),
    ensures
        chain.stages@.len() == 6,
        chain.stages@[0] matches ChainStage::Gate(stage) && parts.gate.prepares(ctx, *stage),
        chain.stages@[1] == ChainStage::<A>::Plain(parts.trim),
        chain.stages@[2] matches ChainStage::Nam(stage) && parts.nam.prepares(ctx, *stage),
        chain.stages@[3] matches ChainStage::Ir(stage) && parts.ir.prepares(ctx, *stage),
        chain.stages@[4] matches ChainStage::Eq(stage) && parts.eq.prepares(ctx, *stage),
        chain.stages@[5] matches ChainStage::Out(stage) && parts.out.prepares(ctx, *stage),
{
}

/// A new chain is not bypassed, its ceiling is full scale, nothing was faulty yet, and its lines
/// are silent, one for each channel.
pub proof fn a_new_chain_starts_from_silence<A: SampleMath>(
    parts: ChainParts<A>,
    ctx: PrepareContext,
    chain: Chain<A>,
)
    requires
        parts.builds(ctx, chain),
    ensures
        !chain.global_bypass,
        chain.output_ceiling_linear == open_if(true),
        chain.fault_count == 0,
        chain.ids == parts.ids,
        chain.math == parts.math,
        chain.cross_cutting is Some,
        chain.prepares_to(ctx, chain),
        chain.cross_cutting->0.prepared_for == ctx,
        !chain.cross_cutting->0.started,
        chain.cross_cutting->0.delay_lines@.len() == ctx.channels(),
{
}

} // verus!
