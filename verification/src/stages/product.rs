//! What the product's own chain makes of a stream while it is settled.

use vstd::prelude::*;

use crate::chain::{all_finite, total_latency, Chain};
use crate::chain_stage::ChainStage;
use crate::chain_streams::{
    a_chain_without_a_handover_stays_as_late, all_joined, chain_processes_all, equally_late,
    equally_late_stages_add_up_to_the_same, rests_unbypassed, ruled_by_all, stage_goes_by,
    stage_goes_by_within, two_divisions_sound_the_same, StreamRule,
};
use crate::math::{single_valued, SampleMath};
use crate::sample::Sample;
use crate::stage_io::{joined, stream_of};
use crate::stages::resource_rules::{
    a_cabinet_stage_goes_by_its_rule, amp_rule, an_amp_stage_goes_by_its_rule, cabinet_rule,
    slot_goes_by,
};
use crate::stages::rules::{
    a_noise_gate_goes_by_its_rule, a_plain_stage_goes_by_its_rule, all_go_by,
    an_equaliser_goes_by_its_rule, an_output_stage_goes_by_its_rule, equaliser_rule, gate_rule,
    output_rule,
};
use crate::stages::seamless::{bands_go_by, goes_by, shaping_goes_by};

verus! {

/// The rules of the processors of one stage, in the order in which a signal passes them.
pub type Rules = Seq<spec_fn(Seq<Sample>) -> Sample>;

/// Whether these are the product's six stages, settled, with processors that go by these rules:
/// `single` are the detector's, the model's and the loudness gain's; `wide` the trim's and the
/// response's; `shaping`, `bands` and `levels` those of the cabinet, the equaliser and the output,
/// channel by channel. Settled means that no handover is under way and the output is not on its way
/// to silence.
pub open spec fn settled<A: SampleMath>(
    stages: Seq<ChainStage<A>>,
    single: Rules,
    wide: Seq<StreamRule>,
    shaping: Seq<Rules>,
    bands: Seq<Rules>,
    levels: Rules,
    channels: nat,
) -> bool {
    &&& stages.len() == 6
    &&& stages[0] matches ChainStage::Gate(gate) && single_valued(gate.math) && goes_by(
        gate.detector,
        single[0],
    )
    &&& stages[1] matches ChainStage::Plain(trim) && all_go_by(trim, wide[0], channels)
    &&& stages[2] matches ChainStage::Nam(nam) && {
        &&& single_valued(nam.math)
        &&& nam.handover.fade is None
        &&& nam.handover.inactive is None
        &&& nam.handover.active matches Some(slot) ==> slot_goes_by(
            nam.math,
            *slot,
            nam.normalize(),
            single[1],
            single[2],
        )
    }
    &&& stages[3] matches ChainStage::Ir(ir) && {
        &&& single_valued(ir.math)
        &&& ir.handover.fade is None
        &&& ir.handover.inactive is None
        &&& ir.handover.active matches Some(slot) ==> slot.wet@.len() >= 1 && all_go_by(
            slot.core,
            wide[1],
            slot.wet@.len(),
        )
        &&& shaping_goes_by(ir.shaping.first, shaping[0])
        &&& channels > 1 ==> shaping_goes_by(ir.shaping.second, shaping[1])
    }
    &&& stages[4] matches ChainStage::Eq(eq) && {
        &&& bands_go_by(eq.first, bands[0])
        &&& channels > 1 ==> bands_go_by(eq.second, bands[1])
    }
    &&& stages[5] matches ChainStage::Out(out) && {
        &&& !out.headed_for_silence()
        &&& goes_by(out.first.gain, levels[0])
        &&& channels > 1 ==> goes_by(out.second.gain, levels[1])
    }
}

/// The rules the product's six stages go by while they are settled.
pub open spec fn product_rules<A: SampleMath>(
    stages: Seq<ChainStage<A>>,
    single: Rules,
    wide: Seq<StreamRule>,
    shaping: Seq<Rules>,
    bands: Seq<Rules>,
    levels: Rules,
) -> Seq<StreamRule> {
    seq![
        gate_rule(*stages[0]->Gate_0, single[0]),
        wide[0],
        amp_rule(*stages[2]->Nam_0, single[1], single[2]),
        cabinet_rule(*stages[3]->Ir_0, wide[1], shaping),
        equaliser_rule(bands),
        output_rule(levels),
    ]
}

/// While they are settled, the product's stages each go by a rule.
pub proof fn settled_stages_go_by_their_rules<A: SampleMath>(
    stages: Seq<ChainStage<A>>,
    single: Rules,
    wide: Seq<StreamRule>,
    shaping: Seq<Rules>,
    bands: Seq<Rules>,
    levels: Rules,
    channels: nat,
)
    requires
        1 <= channels <= 2,
        settled(stages, single, wide, shaping, bands, levels, channels),
    ensures
        forall|k: int|
            0 <= k < stages.len() ==> stage_goes_by(
                #[trigger] stages[k],
                product_rules(stages, single, wide, shaping, bands, levels)[k],
                channels,
            ),
{
    a_noise_gate_goes_by_its_rule(stages[0]->Gate_0, single[0], channels);
    a_plain_stage_goes_by_its_rule::<A>(stages[1]->Plain_0, wide[0], channels);
    an_amp_stage_goes_by_its_rule(stages[2]->Nam_0, single[1], single[2], channels);
    a_cabinet_stage_goes_by_its_rule(stages[3]->Ir_0, wide[1], shaping, channels);
    an_equaliser_goes_by_its_rule::<A>(stages[4]->Eq_0, bands, channels);
    an_output_stage_goes_by_its_rule::<A>(stages[5]->Out_0, levels, channels);
}

/// Dividing a stream differently changes nothing of what the product's chain gives out while it is
/// settled and not bypassed, sample for sample and on every channel: a block cut in two is heard as
/// the whole block. Nor does it change the delay the chain reports, if the trim reports the same.
pub proof fn splitting_a_block_changes_nothing<A: SampleMath>(
    chain: Chain<A>,
    single: Rules,
    wide: Seq<StreamRule>,
    shaping: Seq<Rules>,
    bands: Seq<Rules>,
    levels: Rules,
    blocks: (Seq<Seq<Seq<Sample>>>, Seq<Seq<Seq<Sample>>>),
    outputs: (Seq<Seq<Seq<Sample>>>, Seq<Seq<Seq<Sample>>>),
    after: (Chain<A>, Chain<A>),
    channels: nat,
)
    requires
        1 <= channels <= 2,
        rests_unbypassed(chain),
        settled(chain.stages@, single, wide, shaping, bands, levels, channels),
        stream_of(blocks.0, channels),
        stream_of(blocks.1, channels),
        all_joined(blocks.0, channels) == all_joined(blocks.1, channels),
        all_finite(
            ruled_by_all(
                product_rules(chain.stages@, single, wide, shaping, bands, levels),
                all_joined(blocks.0, channels),
            ),
        ),
        chain_processes_all(chain, blocks.0, outputs.0, after.0),
        chain_processes_all(chain, blocks.1, outputs.1, after.1),
    ensures
        all_joined(outputs.0, channels) == all_joined(outputs.1, channels),
        after.0.stages@[1].latency() == after.1.stages@[1].latency() ==> total_latency(
            after.0.stages@,
        ) == total_latency(after.1.stages@),
{
    let rules = product_rules(chain.stages@, single, wide, shaping, bands, levels);
    settled_stages_go_by_their_rules(
        chain.stages@,
        single,
        wide,
        shaping,
        bands,
        levels,
        channels,
    );
    assert(all_joined(blocks.0, channels)[0] == all_joined(blocks.1, channels)[0]);
    let limit = joined(blocks.0, 0).len() as int + 1;
    assert forall|k: int|
        0 <= k < chain.stages@.len() implies stage_goes_by_within(
        #[trigger] chain.stages@[k],
        rules[k],
        channels,
        limit,
    ) by {
        assert(stage_goes_by(chain.stages@[k], rules[k], channels));
    }
    two_divisions_sound_the_same(chain, rules, blocks, outputs, after, channels, limit);
    a_chain_without_a_handover_stays_as_late(chain, blocks.0, outputs.0, after.0);
    a_chain_without_a_handover_stays_as_late(chain, blocks.1, outputs.1, after.1);
    if after.0.stages@[1].latency() == after.1.stages@[1].latency() {
        assert(equally_late(after.0.stages@, after.1.stages@)) by {
            assert forall|k: int|
                #![trigger after.0.stages@[k]]
                #![trigger after.1.stages@[k]]
                0 <= k < after.0.stages@.len() implies {
                &&& (after.0.stages@[k] is Plain <==> after.1.stages@[k] is Plain)
                &&& after.0.stages@[k] !is Plain ==> after.0.stages@[k].latency()
                    == after.1.stages@[k].latency()
            } by {
                assert(chain.stages@[k] is Plain <==> after.0.stages@[k] is Plain);
            }
        }
        equally_late_stages_add_up_to_the_same(after.0.stages@, after.1.stages@);
    }
}

} // verus!
