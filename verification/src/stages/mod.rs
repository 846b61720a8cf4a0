//! The product's stages, and the fixed chain that is made of them.

use vstd::prelude::*;

use crate::chain::{all_take, none_parked, total_latency, Chain, ChainIds};
use crate::chain_stage::ChainStage;
use crate::math::SampleMath;
use crate::prepare::{PrepareContext, PrepareError};
use crate::sample::Sample;
use crate::stage::{BoxedStage, StagePrep};
use crate::stages::eq::{EqPrep, EqStage};
use crate::stages::gate::{GatePrep, GateStage};
use crate::stages::ir::{IrPrep, IrStage};
use crate::stages::nam::{NamPrep, NamStage};
use crate::stages::out::{OutPrep, OutStage};

pub mod bypass;
pub mod eq;
pub mod filter;
pub mod gate;
pub mod handover;
pub mod ir;
pub mod ir_filters;
pub mod nam;
pub mod onset;
pub mod out;
pub mod product;
pub mod resampler;
pub mod resource_rules;
pub mod rules;
pub mod seamless;
pub mod streams;

verus! {

/// What the product's chain is made of: the stages as preparations, and the trim, a mere processor,
/// ready to run.
pub struct ChainParts<A: SampleMath> {
    /// The chain's own arithmetic.
    pub math: A,
    /// The ids the chain itself answers to and reports under.
    pub ids: ChainIds,
    /// The noise gate.
    pub gate: GatePrep<A>,
    /// The input trim.
    pub trim: BoxedStage,
    /// The amp-model stage.
    pub nam: NamPrep<A>,
    /// The cabinet stage.
    pub ir: IrPrep<A>,
    /// The equaliser.
    pub eq: EqPrep,
    /// The output stage.
    pub out: OutPrep<A>,
}

impl<A: SampleMath> ChainParts<A> {
    /// Whether `stages` are the product's six, in the order in which a block passes them. The noise
    /// gate comes before the trim, so that its threshold refers to the noise floor of the input
    /// itself and does not move with the trim.
    pub open spec fn makes(self, ctx: PrepareContext, stages: Seq<ChainStage<A>>) -> bool {
        &&& stages.len() == 6
        &&& stages[0] matches ChainStage::Gate(stage) && self.gate.prepares(ctx, *stage)
        &&& stages[1] == ChainStage::<A>::Plain(self.trim)
        &&& stages[2] matches ChainStage::Nam(stage) && self.nam.prepares(ctx, *stage)
        &&& stages[3] matches ChainStage::Ir(stage) && self.ir.prepares(ctx, *stage)
        &&& stages[4] matches ChainStage::Eq(stage) && self.eq.prepares(ctx, *stage)
        &&& stages[5] matches ChainStage::Out(stage) && self.out.prepares(ctx, *stage)
    }

    /// Whether `chain` is the product's chain, ready for every block within `ctx`: not bypassed, at
    /// full scale, and with nothing processed yet.
    pub open spec fn builds(self, ctx: PrepareContext, chain: Chain<A>) -> bool {
        &&& self.makes(ctx, chain.stages@)
        &&& chain.cross_cutting matches Some(cc) && cc.fresh(self.math, chain.stages@, ctx)
        &&& chain.ids == self.ids
        &&& chain.math == self.math
        &&& !chain.global_bypass
        &&& chain.output_ceiling_linear == Sample::one()
        &&& chain.fault_count == 0
    }
}

/// A chain with nothing loaded is late by its trim alone, and so by nothing if the trim is not.
pub proof fn a_new_chain_is_late_by_its_trim_alone<A: SampleMath>(
    parts: ChainParts<A>,
    ctx: PrepareContext,
    chain: Chain<A>,
)
    requires
        parts.builds(ctx, chain),
    ensures
        total_latency(chain.stages@) == parts.trim.0.latency(),
{
    reveal_with_fuel(total_latency, 7);
}

/// Builds the product's chain, ready for every block within `ctx`. Nothing is loaded yet: until
/// something is, the stages that hold resources pass their input on.
pub fn build_default_chain<A: SampleMath>(parts: ChainParts<A>, ctx: &PrepareContext) -> (chain:
    Result<Chain<A>, PrepareError>)
    ensures
        chain matches Ok(c) && {
            &&& c.wf()
            &&& parts.builds(*ctx, c)
            &&& none_parked(c.stages@)
        },
{
    let gate: GateStage<A> = parts.gate.prepare(ctx)?;
    let nam: NamStage<A> = parts.nam.prepare(ctx)?;
    let ir: IrStage<A> = parts.ir.prepare(ctx)?;
    let eq: EqStage = parts.eq.prepare(ctx)?;
    let out: OutStage = parts.out.prepare(ctx)?;
    let mut stages: Vec<ChainStage<A>> = Vec::with_capacity(6);
    stages.push(ChainStage::Gate(Box::new(gate)));
    stages.push(ChainStage::Plain(parts.trim));
    stages.push(ChainStage::Nam(Box::new(nam)));
    stages.push(ChainStage::Ir(Box::new(ir)));
    stages.push(ChainStage::Eq(Box::new(eq)));
    stages.push(ChainStage::Out(Box::new(out)));
    let ghost made = stages@;
    let mut chain = Chain::new(stages, parts.ids, parts.math);
    assert forall|frames: nat| frames <= ctx.max_frames() implies #[trigger] all_take(
        made,
        frames,
        ctx.channels(),
    ) by {}
    chain.prepare_crosscutting(ctx);
    Ok(chain)
}

} // verus!
