//! What the chain is for: every stage hears what the one before it made, a bypass that keeps the
//! reported delay, and an output that never leaves what is harmless.

use vstd::prelude::*;

use crate::chain::{
    all_finite, all_readings, contained, counted, latency_from, limited_block, line_capacity,
    longest_tail, parked_count, saturated, sends_back, snaps, stages_play, tail_contribution,
    takes_it, total_latency, BlockShape, Chain, CrossCutting,
};
use crate::chain_stage::ChainStage;
use crate::laws::blend::{a_blend_is_heard_between_its_two_sides, all_heard_between};
use crate::laws::values::ordinary;
use crate::laws::{on_at, open_if, was_cleared, was_told};
use crate::math::SampleMath;
use crate::param::ParamChange;
use crate::prepare::PrepareContext;
use crate::resource::{Resource, ResourceKind};
use crate::sample::Sample;
use crate::stages::bypass::{block_blends, BypassBlend};
use crate::telemetry::TelemetryEntry;

verus! {

/// Whether a block has passed stages one after the other: `signals` is what there is before the
/// first of them, between any two, and behind the last.
pub open spec fn passed_in_order<A: SampleMath>(
    before: Seq<ChainStage<A>>,
    signals: Seq<Seq<Seq<Sample>>>,
    after: Seq<ChainStage<A>>,
) -> bool {
    &&& signals.len() == before.len() + 1
    &&& after.len() == before.len()
    &&& forall|k: int|
        #![trigger before[k]]
        0 <= k < before.len() ==> before[k].plays(signals[k], signals[k + 1], after[k])
}

/// Every stage runs once, in order, and hears what the one before it made.
pub proof fn every_stage_hears_the_one_before_it<A: SampleMath>(
    before: Seq<ChainStage<A>>,
    after: Seq<ChainStage<A>>,
    input: Seq<Seq<Sample>>,
    output: Seq<Seq<Sample>>,
) -> (signals: Seq<Seq<Seq<Sample>>>)
    requires
        stages_play(before, after, input, output),
    ensures
        passed_in_order(before, signals, after),
        signals[0] == input,
        signals[before.len() as int] == output,
    decreases before.len(),
{
    if before.len() == 0 {
        seq![input]
    } else {
        let between = choose|between: Seq<Seq<Sample>>|
            stages_play(before.drop_last(), after.drop_last(), input, between)
                && #[trigger] before.last().plays(between, output, after.last());
        let first = every_stage_hears_the_one_before_it(
            before.drop_last(),
            after.drop_last(),
            input,
            between,
        );
        let all = first.push(output);
        assert forall|k: int|
            #![trigger before[k]]
            0 <= k < before.len() implies before[k].plays(all[k], all[k + 1], after[k]) by {
            if k < before.len() - 1 {
                assert(before.drop_last()[k] == before[k]);
                assert(after.drop_last()[k] == after[k]);
            }
        }
        all
    }
}

/// A link of the chain does what the stage in it does, and stays that stage.
pub proof fn a_link_is_its_stage<A: SampleMath>(
    link: ChainStage<A>,
    input: Seq<Seq<Sample>>,
    output: Seq<Seq<Sample>>,
    change: ParamChange,
    after: ChainStage<A>,
)
    ensures
        link.plays(input, output, after) ==> match link {
            ChainStage::Plain(a) => after matches ChainStage::Plain(b) && a.passes(
                input,
                output,
                b,
            ),
            ChainStage::Gate(a) => after matches ChainStage::Gate(b) && a.plays(input, output, *b),
            ChainStage::Nam(a) => after matches ChainStage::Nam(b) && a.plays(input, output, *b),
            ChainStage::Ir(a) => after matches ChainStage::Ir(b) && a.plays(input, output, *b),
            ChainStage::Eq(a) => after matches ChainStage::Eq(b) && a.plays(input, output, *b),
            ChainStage::Out(a) => after matches ChainStage::Out(b) && a.plays(input, output, *b),
        },
        link.plays(input, output, after) ==> output.len() == input.len() && forall|c: int|
            0 <= c < input.len() ==> (#[trigger] output[c]).len() == input[c].len(),
        link.applies(change, after) ==> match link {
            ChainStage::Plain(a) => after matches ChainStage::Plain(b) && was_told(
                a,
                seq![change],
                b,
            ),
            ChainStage::Gate(a) => after matches ChainStage::Gate(b) && a.applies(change, *b),
            ChainStage::Nam(a) => after matches ChainStage::Nam(b) && *b == a.applied(change),
            ChainStage::Ir(a) => after matches ChainStage::Ir(b) && a.applies(change, *b),
            ChainStage::Eq(a) => after matches ChainStage::Eq(b) && a.applies(change, *b),
            ChainStage::Out(a) => after matches ChainStage::Out(b) && a.applies(change, *b),
        },
        link.resets_to(after) ==> match link {
            ChainStage::Plain(a) => after matches ChainStage::Plain(b) && was_cleared(a, b),
            ChainStage::Gate(a) => after matches ChainStage::Gate(b) && a.resets_to(*b),
            ChainStage::Nam(a) => after matches ChainStage::Nam(b) && a.resets_to(*b),
            ChainStage::Ir(a) => after matches ChainStage::Ir(b) && a.resets_to(*b),
            ChainStage::Eq(a) => after matches ChainStage::Eq(b) && a.resets_to(*b),
            ChainStage::Out(a) => after matches ChainStage::Out(b) && a.resets_to(*b),
        },
{
}

/// What a link reports of itself is what the stage in it reports: its delay, its tail, its
/// readings, what it holds and whether anything is parked in it.
pub proof fn a_link_reports_as_its_stage<A: SampleMath>(link: ChainStage<A>)
    ensures
        link matches ChainStage::Plain(stage) ==> link.latency() == stage.0.latency()
            && link.tail() == stage.0.tail() && link.readings() == stage.0.readings(),
        link matches ChainStage::Gate(stage) ==> link.latency() == 0 && link.tail() == 0
            && link.readings() == stage.readings(),
        link matches ChainStage::Nam(stage) ==> link.latency() == stage.latency() && link.tail()
            == 0 && link.readings() == stage.readings() && link.has_parked() == (
        stage.handover.parked is Some) && link.holds() == Some(ResourceKind::Nam),
        link matches ChainStage::Ir(stage) ==> link.latency() == 0 && link.tail() == stage.tail()
            && link.readings() == stage.readings() && link.has_parked() == (stage.handover.parked
            is Some) && link.holds() == Some(ResourceKind::Ir),
        link matches ChainStage::Eq(stage) ==> link.latency() == 0 && link.tail() == 0
            && link.readings() == stage.readings(),
        link matches ChainStage::Out(stage) ==> link.latency() == 0 && link.tail() == 0
            && link.readings() == stage.readings(),
        !(link is Nam) && !(link is Ir) ==> link.holds() is None && !link.has_parked(),
{
}

/// How much of a chain's delay comes from its first `k` stages.
pub open spec fn delay_up_to<A: SampleMath>(stages: Seq<ChainStage<A>>, k: int) -> int
    decreases k,
{
    if k <= 0 {
        0
    } else {
        delay_up_to(stages, k - 1) + stages[k - 1].latency()
    }
}

/// The delays of all stages add up, each of them counted once.
pub proof fn delays_add_up<A: SampleMath>(stages: Seq<ChainStage<A>>)
    ensures
        total_latency(stages) == delay_up_to(stages, stages.len() as int),
    decreases stages.len(),
{
    if stages.len() > 0 {
        delays_add_up(stages.drop_last());
        lemma_same_delay(stages.drop_last(), stages, stages.len() - 1);
    }
}

/// What comes later does not count.
proof fn lemma_same_delay<A: SampleMath>(
    a: Seq<ChainStage<A>>,
    b: Seq<ChainStage<A>>,
    k: int,
)
    requires
        0 <= k <= a.len(),
        k <= b.len(),
        forall|i: int| 0 <= i < k ==> a[i] == b[i],
    ensures
        delay_up_to(a, k) == delay_up_to(b, k),
    decreases k,
{
    if k > 0 {
        lemma_same_delay(a, b, k - 1);
    }
}

/// What does not fit a figure stops at the largest one, and what fits is exact.
pub proof fn figures_stop_at_the_largest(n: nat)
    ensures
        n <= 0xffff_ffff ==> saturated(n) == n,
        n > 0xffff_ffff ==> saturated(n) == 0xffff_ffff,
{
}

/// What a stage sounds on for takes the delays of all stages behind it to leave the chain, and the
/// chain sounds on for as long as the last of that.
pub proof fn the_tail_leaves_behind_the_stages_that_follow<A: SampleMath>(
    stages: Seq<ChainStage<A>>,
    k: int,
)
    requires
        0 <= k < stages.len(),
    ensures
        delay_up_to(stages, k) + latency_from(stages, k) == delay_up_to(
            stages,
            stages.len() as int,
        ),
        tail_contribution(stages, k) == saturated(
            (stages[k].tail() + (delay_up_to(stages, stages.len() as int) - delay_up_to(
                stages,
                k + 1,
            ))) as nat,
        ),
        longest_tail(stages, k) >= tail_contribution(stages, k),
        longest_tail(stages, k) >= longest_tail(stages, k + 1),
        longest_tail(stages, k) == tail_contribution(stages, k) || longest_tail(stages, k)
            == longest_tail(stages, k + 1),
        longest_tail(stages, stages.len() as int) == 0,
{
    lemma_delays_behind(stages, k);
    lemma_delays_behind(stages, k + 1);
}

/// The delays before a stage and from it on are all there are.
proof fn lemma_delays_behind<A: SampleMath>(stages: Seq<ChainStage<A>>, k: int)
    requires
        0 <= k <= stages.len(),
    ensures
        delay_up_to(stages, k) + latency_from(stages, k) == delay_up_to(
            stages,
            stages.len() as int,
        ),
    decreases stages.len() - k,
{
    if k < stages.len() {
        lemma_delays_behind(stages, k + 1);
    }
}

/// Whether every sample of a block is an ordinary number.
pub open spec fn harmless(block: Seq<Seq<Sample>>) -> bool {
    forall|c: int, i: int|
        0 <= c < block.len() && 0 <= i < block[c].len() ==> ordinary(#[trigger] block[c][i])
}

/// Whether a block is silent throughout, `frames` frames long.
pub open spec fn silent(block: Seq<Seq<Sample>>, channels: nat, frames: nat) -> bool {
    &&& block.len() == channels
    &&& forall|c: int| 0 <= c < channels ==> (#[trigger] block[c]).len() == frames
    &&& forall|c: int, i: int|
        0 <= c < channels && 0 <= i < frames ==> (#[trigger] block[c][i]).bits == 0
}

/// Whether `out` is `block` with every magnitude above the ceiling's brought down to it, and
/// everything else as it is.
pub open spec fn clamped(
    block: Seq<Seq<Sample>>,
    ceiling: Sample,
    out: Seq<Seq<Sample>>,
) -> bool {
    &&& out.len() == block.len()
    &&& forall|c: int| 0 <= c < block.len() ==> (#[trigger] out[c]).len() == block[c].len()
    &&& forall|c: int, i: int|
        0 <= c < block.len() && 0 <= i < block[c].len() ==> {
            let x = block[c][i];
            let y = #[trigger] out[c][i];
            &&& y.bits / 0x8000_0000 == x.bits / 0x8000_0000
            &&& x.bits % 0x8000_0000 <= ceiling.bits ==> y == x
            &&& x.bits % 0x8000_0000 > ceiling.bits && x.bits % 0x8000_0000 <= 0x7f80_0000
                ==> y.bits % 0x8000_0000 == ceiling.bits
        }
}

/// What leaves the chain: silence, the whole block of it, if a single sample is not an ordinary
/// number; otherwise the block, clamped where the ceiling applies and untouched where it does not.
pub proof fn only_harmless_blocks_leave(
    block: Seq<Seq<Sample>>,
    frames: nat,
    ceiling: Sample,
    apply_ceiling: bool,
)
    requires
        ceiling.bits <= 0x7f80_0000,
    ensures
        all_finite(block) == harmless(block),
        !harmless(block) ==> silent(
            contained(block, frames, ceiling, apply_ceiling),
            block.len(),
            frames,
        ),
        harmless(block) && !apply_ceiling ==> contained(block, frames, ceiling, apply_ceiling)
            == block,
        harmless(block) && apply_ceiling ==> clamped(
            block,
            ceiling,
            contained(block, frames, ceiling, apply_ceiling),
        ),
        clamped(block, ceiling, limited_block(block, ceiling)),
{
    assert forall|s: Sample| #[trigger] s.finite() == ordinary(s) by {
        crate::laws::values::finite_numbers_have_an_ordinary_exponent(s);
    }
    assert(all_finite(block) ==> harmless(block));
    if harmless(block) {
        assert forall|c: int, i: int| 0 <= c < block.len() && 0 <= i < block[c].len() implies (
        #[trigger] block[c][i]).finite() by {
            assert(ordinary(block[c][i]));
        }
    }
    assert forall|c: int, i: int| 0 <= c < block.len() && 0 <= i < block[c].len() implies {
        let x = block[c][i];
        let y = #[trigger] limited_block(block, ceiling)[c][i];
        &&& y.bits / 0x8000_0000 == x.bits / 0x8000_0000
        &&& x.bits % 0x8000_0000 <= ceiling.bits ==> y == x
        &&& x.bits % 0x8000_0000 > ceiling.bits && x.bits % 0x8000_0000 <= 0x7f80_0000
            ==> y.bits % 0x8000_0000 == ceiling.bits
    } by {
        crate::laws::values::clamping_keeps_sign_and_reaches_the_ceiling(block[c][i], ceiling);
    }
}

/// A faulty block counts as one, however many samples of it are, and any other as none.
pub proof fn faulty_blocks_are_counted(count: u64)
    ensures
        counted(count, false) == count,
        count < 0xffff_ffff_ffff_ffff ==> counted(count, true) == count + 1,
        count == 0xffff_ffff_ffff_ffff ==> counted(count, true) == count,
{
}

/// Which sides of the bypass a block owes anything to. Settled at either end it is one side alone;
/// anywhere between, or on its way, it is both. The first block after a preparation is settled
/// where the switch says.
pub proof fn a_block_owes_to_the_sides_it_lies_between(mix: Sample, bypassed: bool)
    requires
        mix.bits <= 0x3f80_0000,
    ensures
        BlockShape::of(false, mix, bypassed).mix == open_if(bypassed),
        BlockShape::of(true, mix, bypassed).mix == mix,
        BlockShape::of(false, mix, bypassed).target == open_if(bypassed),
        BlockShape::of(true, mix, bypassed).target == open_if(bypassed),
        BlockShape::of(false, mix, bypassed).dry == bypassed,
        BlockShape::of(false, mix, bypassed).wet == !bypassed,
        BlockShape::of(true, mix, bypassed).dry == (bypassed || mix.bits > 0),
        BlockShape::of(true, mix, bypassed).wet == (!bypassed || mix.bits < 0x3f80_0000),
{
}

/// Where the bypass of a chain stands when a block comes in.
pub open spec fn stands_at(cc: CrossCutting, bypassed: bool) -> Sample {
    if cc.started {
        cc.blend.mix
    } else {
        open_if(bypassed)
    }
}

/// The delay the chain reports.
pub open spec fn reported<A: SampleMath>(chain: Chain<A>) -> int {
    let delay = delay_up_to(chain.stages@, chain.stages@.len() as int);
    if delay <= 0xffff_ffff {
        delay
    } else {
        0xffff_ffff
    }
}

/// Whether `late` is `input`, late by the delay the chain reports, as far as its lines reach back.
pub open spec fn late_by_the_report<A: SampleMath>(
    chain: Chain<A>,
    cc: CrossCutting,
    input: Seq<Seq<Sample>>,
    late: Seq<Seq<Sample>>,
) -> bool {
    &&& late.len() == input.len()
    &&& forall|c: int| 0 <= c < input.len() ==> (#[trigger] late[c]).len() == input[c].len()
    &&& forall|c: int, i: int|
        0 <= c < input.len() && 0 <= i < input[c].len() ==> {
            let past = cc.delay_lines@[c]@;
            let by = if reported(chain) < past.len() {
                reported(chain)
            } else {
                past.len() - 1
            };
            #[trigger] late[c][i] == if i >= by {
                input[c][i - by]
            } else {
                past[past.len() + i - by]
            }
        }
}

/// A bypassed signal is late by the delay the chain reports: not a sample more or less, as far as
/// the lines reach back.
pub proof fn the_dry_side_is_late_by_the_report<A: SampleMath>(
    chain: Chain<A>,
    cc: CrossCutting,
    input: Seq<Seq<Sample>>,
    late: Seq<Seq<Sample>>,
)
    requires
        cc.delays(input, saturated(total_latency(chain.stages@)) as nat, late),
        forall|c: int| 0 <= c < input.len() ==> (#[trigger] cc.delay_lines@[c])@.len() >= 1,
    ensures
        late_by_the_report(chain, cc, input, late),
{
    delays_add_up(chain.stages@);
    assert forall|c: int, i: int| 0 <= c < input.len() && 0 <= i < input[c].len() implies {
        let past = cc.delay_lines@[c]@;
        let by = if reported(chain) < past.len() {
            reported(chain)
        } else {
            past.len() - 1
        };
        #[trigger] late[c][i] == if i >= by {
            input[c][i - by]
        } else {
            past[past.len() + i - by]
        }
    } by {
        assert(cc.delay_lines@[c]@.len() >= 1);
    }
}

/// Whether the lines have been fed the block: each holds the newest of what it held and what came
/// in, and as much as before.
pub open spec fn lines_fed(
    cc: CrossCutting,
    input: Seq<Seq<Sample>>,
    left: CrossCutting,
) -> bool {
    &&& left.delay_lines@.len() == cc.delay_lines@.len()
    &&& forall|c: int|
        0 <= c < left.delay_lines@.len() ==> (#[trigger] left.delay_lines@[c])@ == (
        cc.delay_lines@[c]@ + input[c]).skip(input[c].len() as int)
}

/// What a prepared chain makes of a block. With the bypass off and settled, what its stages make of
/// it, clamped to the ceiling. With it on and settled, the input, late by the delay the chain
/// reports, and the stages rest. In between, the blend from the stages' clamped output towards the
/// late input. A block that is not harmless leaves as silence and is counted, whichever side it
/// comes from. Every block feeds the lines, unless there is no delay to keep and nothing was read
/// from them.
pub proof fn a_block_leaves_the_chain_as_the_bypass_says<A: SampleMath>(
    chain: Chain<A>,
    input: Seq<Seq<Sample>>,
    frames: nat,
    output: Seq<Seq<Sample>>,
    after: Chain<A>,
)
    requires
        chain.processes(input, frames, output, after),
        chain.output_ceiling_linear.bits <= 0x7f80_0000,
        chain.cross_cutting matches Some(cc) && cc.blend.mix.bits <= 0x3f80_0000
            && cc.delay_lines@.len() == input.len() && forall|c: int|
            0 <= c < input.len() ==> (#[trigger] cc.delay_lines@[c])@.len() >= 1,
    ensures
        after.ids == chain.ids,
        after.math == chain.math,
        after.global_bypass == chain.global_bypass,
        after.output_ceiling_linear == chain.output_ceiling_linear,
        after.cross_cutting is Some,
        after.cross_cutting->0.started,
        after.cross_cutting->0.prepared_for == chain.cross_cutting->0.prepared_for,
        after.cross_cutting->0.blend.coefficient == chain.cross_cutting->0.blend.coefficient,
        after.cross_cutting->0.blend.target == open_if(chain.global_bypass),
        ({
            let cc = chain.cross_cutting->0;
            let at = stands_at(cc, chain.global_bypass);
            let heard_wet = !chain.global_bypass || at.bits < 0x3f80_0000;
            let heard_dry = chain.global_bypass || at.bits > 0;
            &&& exists|wet: Seq<Seq<Sample>>, dry: Seq<Seq<Sample>>, mixed: Seq<Seq<Sample>>|
                #[trigger] put_together(chain, input, wet, dry, mixed, after) && {
                    &&& !harmless(mixed) ==> silent(output, mixed.len(), frames)
                    &&& harmless(mixed) && heard_dry ==> output == mixed
                    &&& harmless(mixed) && !heard_dry ==> clamped(
                        mixed,
                        chain.output_ceiling_linear,
                        output,
                    )
                    &&& after.fault_count == if harmless(mixed) || chain.fault_count == u64::MAX {
                        chain.fault_count as int
                    } else {
                        chain.fault_count + 1
                    }
                }
            &&& heard_dry || delay_up_to(chain.stages@, chain.stages@.len() as int) > 0
                ==> lines_fed(cc, input, after.cross_cutting->0)
            &&& !heard_dry && delay_up_to(chain.stages@, chain.stages@.len() as int) == 0
                ==> after.cross_cutting->0.delay_lines@ == cc.delay_lines@
            &&& !heard_wet ==> after.stages@ == chain.stages@
        }),
{
    let cc = chain.cross_cutting->0;
    let left = after.cross_cutting->0;
    a_block_owes_to_the_sides_it_lies_between(cc.blend.mix, chain.global_bypass);
    delays_add_up(chain.stages@);
    let shape = BlockShape::of(cc.started, cc.blend.mix, chain.global_bypass);
    let (wet, dry, mixed) = choose|
        wet: Seq<Seq<Sample>>,
        dry: Seq<Seq<Sample>>,
        mixed: Seq<Seq<Sample>>,
    |
        {
            &&& #[trigger] chain.mixes(
                cc,
                input,
                wet,
                dry,
                mixed,
                left.blend.mix,
                after.stages@,
            )
            &&& output == contained(
                mixed,
                frames,
                chain.output_ceiling_linear,
                !shape.dry,
            )
            &&& after.fault_count == counted(chain.fault_count, !all_finite(mixed))
        };
    assert(chain.mixes(cc, input, wet, dry, mixed, left.blend.mix, after.stages@));
    only_harmless_blocks_leave(mixed, frames, chain.output_ceiling_linear, !shape.dry);
    lemma_put_together(chain, input, wet, dry, mixed, after);
    assert(put_together(chain, input, wet, dry, mixed, after));
    if shape.dry || total_latency(chain.stages@) > 0 {
        assert forall|c: int| 0 <= c < left.delay_lines@.len() implies (
        #[trigger] left.delay_lines@[c])@ == (cc.delay_lines@[c]@ + input[c]).skip(
            input[c].len() as int,
        ) by {
            let past = cc.delay_lines@[c]@;
            assert(past.len() >= 1);
            assert((past + input[c]).skip(input[c].len() as int) =~= left.delay_lines@[c]@);
        }
    }
}

/// Whether a block has been put together from the sides the bypass lies between.
pub open spec fn put_together<A: SampleMath>(
    chain: Chain<A>,
    input: Seq<Seq<Sample>>,
    wet: Seq<Seq<Sample>>,
    dry: Seq<Seq<Sample>>,
    mixed: Seq<Seq<Sample>>,
    after: Chain<A>,
) -> bool {
    let cc = chain.cross_cutting->0;
    let at = stands_at(cc, chain.global_bypass);
    let end = after.cross_cutting->0.blend.mix;
    let heard_wet = !chain.global_bypass || at.bits < 0x3f80_0000;
    let heard_dry = chain.global_bypass || at.bits > 0;
    &&& heard_wet ==> stages_play(chain.stages@, after.stages@, input, wet)
    &&& heard_dry ==> late_by_the_report(chain, cc, input, dry)
    &&& heard_wet && !heard_dry ==> mixed == wet && end == at
    &&& heard_dry && !heard_wet ==> mixed == dry && end == at
    &&& heard_dry && heard_wet ==> exists|from: Seq<Seq<Sample>>, stop: Sample|
        {
            &&& clamped(wet, chain.output_ceiling_linear, from)
            &&& #[trigger] all_heard_between(
                chain.math,
                BypassBlend {
                    mix: at,
                    target: open_if(chain.global_bypass),
                    coefficient: cc.blend.coefficient,
                },
                from,
                dry,
                mixed,
                stop,
            )
            &&& {
                ||| end == open_if(chain.global_bypass) && call_ensures(
                    A::within_step,
                    (&chain.math, stop, end, cc.blend.coefficient),
                    true,
                )
                ||| end == stop && call_ensures(
                    A::within_step,
                    (
                        &chain.math,
                        stop,
                        open_if(chain.global_bypass),
                        cc.blend.coefficient,
                    ),
                    false,
                )
            }
        }
}

/// What the sides are.
proof fn lemma_put_together<A: SampleMath>(
    chain: Chain<A>,
    input: Seq<Seq<Sample>>,
    wet: Seq<Seq<Sample>>,
    dry: Seq<Seq<Sample>>,
    mixed: Seq<Seq<Sample>>,
    after: Chain<A>,
)
    requires
        chain.output_ceiling_linear.bits <= 0x7f80_0000,
        chain.cross_cutting matches Some(cc) && cc.blend.mix.bits <= 0x3f80_0000 && (forall|c: int|
            0 <= c < input.len() ==> (#[trigger] cc.delay_lines@[c])@.len() >= 1) && chain.mixes(
            cc,
            input,
            wet,
            dry,
            mixed,
            after.cross_cutting->0.blend.mix,
            after.stages@,
        ),
    ensures
        put_together(chain, input, wet, dry, mixed, after),
{
    let cc = chain.cross_cutting->0;
    let end = after.cross_cutting->0.blend.mix;
    a_block_owes_to_the_sides_it_lies_between(cc.blend.mix, chain.global_bypass);
    let shape = BlockShape::of(cc.started, cc.blend.mix, chain.global_bypass);
    assert(shape.mix == stands_at(cc, chain.global_bypass));
    if shape.dry {
        the_dry_side_is_late_by_the_report(chain, cc, input, dry);
    }
    if shape.dry && shape.wet {
        let ceiling = chain.output_ceiling_linear;
        let blend = BypassBlend {
            mix: shape.mix,
            target: shape.target,
            coefficient: cc.blend.coefficient,
        };
        let from = limited_block(wet, ceiling);
        let stop = choose|stop: Sample|
            {
                &&& #[trigger] block_blends(chain.math, blend, from, dry, mixed, stop)
                &&& snaps(chain.math, stop, shape.target, cc.blend.coefficient, end)
            };
        a_blend_is_heard_between_its_two_sides(chain.math, blend, from, dry, mixed, stop);
        a_crossfade_comes_to_its_end(
            chain.math,
            stop,
            shape.target,
            cc.blend.coefficient,
            end,
        );
        only_harmless_blocks_leave(wet, 0, ceiling, true);
        assert(all_heard_between(chain.math, blend, from, dry, mixed, stop));
    }
}

/// A crossfade that is within one step of its end is left there, and any other where it is.
pub proof fn a_crossfade_comes_to_its_end<A: SampleMath>(
    math: A,
    stop: Sample,
    target: Sample,
    coefficient: Sample,
    end: Sample,
)
    requires
        snaps(math, stop, target, coefficient, end),
    ensures
        call_ensures(A::within_step, (&math, stop, target, coefficient), true) && end == target
            || call_ensures(A::within_step, (&math, stop, target, coefficient), false) && end
            == stop,
{
}

/// An unprepared chain runs its stages, or, bypassed, passes the block on as it is. It counts
/// nothing.
pub proof fn an_unprepared_chain_only_runs_its_stages<A: SampleMath>(
    chain: Chain<A>,
    input: Seq<Seq<Sample>>,
    frames: nat,
    output: Seq<Seq<Sample>>,
    after: Chain<A>,
)
    requires
        chain.cross_cutting is None,
        chain.processes(input, frames, output, after),
    ensures
        after.cross_cutting is None,
        after.ids == chain.ids,
        after.math == chain.math,
        after.fault_count == chain.fault_count,
        after.global_bypass == chain.global_bypass,
        after.output_ceiling_linear == chain.output_ceiling_linear,
        chain.global_bypass ==> output == input && after.stages@ == chain.stages@,
        !chain.global_bypass ==> stages_play(chain.stages@, after.stages@, input, output),
{
}

/// The chain's own switch and ceiling are set by their own two parameters, which reach no stage.
/// The switch can be turned either way at any time; a level that cannot be clamped to leaves the
/// ceiling as it was, and any other becomes the ceiling.
pub proof fn the_chain_keeps_its_own_settings<A: SampleMath>(
    chain: Chain<A>,
    change: ParamChange,
    after: Chain<A>,
)
    requires
        chain.applies(change, after),
        change.id == chain.ids.bypass || change.id == chain.ids.output_ceiling_db,
    ensures
        after.stages == chain.stages,
        after.cross_cutting == chain.cross_cutting,
        after.fault_count == chain.fault_count,
        after.ids == chain.ids,
        after.math == chain.math,
        change.id == chain.ids.bypass ==> after.global_bypass == on_at(change.value)
            && after.output_ceiling_linear == chain.output_ceiling_linear,
        change.id != chain.ids.bypass ==> after.global_bypass == chain.global_bypass && exists|
            linear: Sample,
        |
            #[trigger] call_ensures(A::db_to_linear, (&chain.math, change.value), linear)
                && after.output_ceiling_linear == if linear.bits <= 0x7f80_0000 {
                linear
            } else {
                chain.output_ceiling_linear
            },
{
    if change.id != chain.ids.bypass {
        let linear = choose|linear: Sample|
            #![trigger linear.is_ceiling()]
            call_ensures(A::db_to_linear, (&chain.math, change.value), linear) && after == (Chain {
                output_ceiling_linear: if linear.is_ceiling() {
                    linear
                } else {
                    chain.output_ceiling_linear
                },
                ..chain
            });
        assert(call_ensures(A::db_to_linear, (&chain.math, change.value), linear));
    }
}

/// Any other update goes to every stage, and to every stage alike; the chain's own settings stay.
pub proof fn other_updates_go_to_every_stage<A: SampleMath>(
    chain: Chain<A>,
    change: ParamChange,
    after: Chain<A>,
    k: int,
)
    requires
        chain.applies(change, after),
        change.id != chain.ids.bypass,
        change.id != chain.ids.output_ceiling_db,
        0 <= k < chain.stages@.len(),
    ensures
        after.stages@.len() == chain.stages@.len(),
        chain.stages@[k].applies(change, after.stages@[k]),
        after == (Chain { stages: after.stages, ..chain }),
{
    assert(chain.stages@[k].applies(change, after.stages@[k]));
}

/// A reset reaches every stage and changes nothing else.
pub proof fn a_reset_reaches_every_stage<A: SampleMath>(chain: Chain<A>, after: Chain<A>, k: int)
    requires
        chain.resets_to(after),
        0 <= k < chain.stages@.len(),
    ensures
        after.stages@.len() == chain.stages@.len(),
        chain.stages@[k].resets_to(after.stages@[k]),
        after == (Chain { stages: after.stages, ..chain }),
{
    assert(chain.stages@[k].resets_to(after.stages@[k]));
}

/// Whether a stage would take a resource of this kind: it holds that kind, and its pen is free.
pub open spec fn has_a_place<A: SampleMath>(stage: ChainStage<A>, kind: ResourceKind) -> bool {
    match stage {
        ChainStage::Nam(nam) => kind == ResourceKind::Nam && nam.handover.parked is None,
        ChainStage::Ir(ir) => kind == ResourceKind::Ir && ir.handover.parked is None,
        _ => false,
    }
}

/// Whether a stage has taken a resource.
pub open spec fn has_taken<A: SampleMath>(
    stage: ChainStage<A>,
    resource: Resource,
    after: ChainStage<A>,
) -> bool {
    match stage {
        ChainStage::Nam(nam) => after matches ChainStage::Nam(left) && nam.accepts(
            resource,
            *left,
        ),
        ChainStage::Ir(ir) => after matches ChainStage::Ir(left) && ir.accepts(resource, *left),
        _ => false,
    }
}

/// A resource goes to the first stage that has a place for it, and to no other; one that none has a
/// place for stays with the caller, and nothing changes.
pub proof fn a_resource_goes_to_the_first_place_for_it<A: SampleMath>(
    chain: Chain<A>,
    resource: Resource,
    after: Chain<A>,
    left: Option<Resource>,
)
    requires
        chain.is_offered(resource, after, left),
    ensures
        after == (Chain { stages: after.stages, ..chain }),
        after.stages@.len() == chain.stages@.len(),
        (forall|i: int|
            0 <= i < chain.stages@.len() ==> !has_a_place(
                #[trigger] chain.stages@[i],
                resource.belongs_to(),
            )) ==> left == Some(resource) && after.stages@ == chain.stages@,
        forall|at: int|
            #![trigger chain.stages@[at]]
            0 <= at < chain.stages@.len() && has_a_place(chain.stages@[at], resource.belongs_to())
                && (forall|i: int|
                0 <= i < at ==> !has_a_place(#[trigger] chain.stages@[i], resource.belongs_to()))
                ==> {
                &&& left is None
                &&& has_taken(chain.stages@[at], resource, after.stages@[at])
                &&& forall|i: int|
                    0 <= i < chain.stages@.len() && i != at ==> #[trigger] after.stages@[i]
                        == chain.stages@[i]
            },
{
    let kind = resource.belongs_to();
    assert forall|i: int| 0 <= i < chain.stages@.len() implies (
    #[trigger] chain.stages@[i]).welcomes(kind) == has_a_place(chain.stages@[i], kind) by {}
    if chain.welcomes(kind) {
        let first = choose|at: int|
            {
                &&& 0 <= at < chain.stages@.len()
                &&& (#[trigger] chain.stages@[at]).welcomes(kind)
                &&& forall|i: int| 0 <= i < at ==> !(#[trigger] chain.stages@[i]).welcomes(kind)
                &&& chain.stages@[at].accepts(resource, after.stages@[at])
                &&& after.stages@ == chain.stages@.update(at, after.stages@[at])
            };
        assert(takes_it(chain.stages@, after.stages@, resource));
        assert(has_a_place(chain.stages@[first], kind));
        assert forall|at: int|
            #![trigger chain.stages@[at]]
            0 <= at < chain.stages@.len() && has_a_place(chain.stages@[at], kind) && (forall|
                i: int,
            |
                0 <= i < at ==> !has_a_place(#[trigger] chain.stages@[i], kind)) implies {
            &&& left is None
            &&& has_taken(chain.stages@[at], resource, after.stages@[at])
            &&& forall|i: int|
                0 <= i < chain.stages@.len() && i != at ==> #[trigger] after.stages@[i]
                    == chain.stages@[i]
        } by {
            if at < first {
                assert(!chain.stages@[at].welcomes(kind));
            }
            if first < at {
                assert(!has_a_place(chain.stages@[first], kind));
            }
        }
    } else {
        assert forall|i: int| 0 <= i < chain.stages@.len() implies !has_a_place(
            #[trigger] chain.stages@[i],
            kind,
        ) by {
            assert(!chain.stages@[i].welcomes(kind));
        }
    }
}

/// Unloading begins to empty every stage that holds this kind and has its pen free, and leaves
/// every other alone: the amp stage for a model, the cabinet for a response.
pub proof fn unloading_empties_the_stages_of_its_kind<A: SampleMath>(
    chain: Chain<A>,
    kind: ResourceKind,
    after: Chain<A>,
    k: int,
)
    requires
        chain.unloads_to(kind, after),
        0 <= k < chain.stages@.len(),
    ensures
        after == (Chain { stages: after.stages, ..chain }),
        after.stages@.len() == chain.stages@.len(),
        !has_a_place(chain.stages@[k], kind) ==> after.stages@[k] == chain.stages@[k],
        has_a_place(chain.stages@[k], kind) ==> match chain.stages@[k] {
            ChainStage::Nam(nam) => after.stages@[k] matches ChainStage::Nam(left) && *left
                == nam.begun(None, 0),
            ChainStage::Ir(ir) => after.stages@[k] matches ChainStage::Ir(left) && *left
                == ir.begun(None, 0),
            _ => false,
        },
{
    let stage = chain.stages@[k];
    assert(stage.welcomes(kind) == has_a_place(stage, kind));
    let left = after.stages@[k];
}

/// A round of retirements sends back only what was parked, and a pen is freed only by sending back
/// what was in it: each stage is left as it was, or with its pen free and the resource that was in
/// it behind everything that was sent before.
pub proof fn a_pen_is_freed_only_by_sending_back<A: SampleMath>(
    before: Seq<ChainStage<A>>,
    after: Seq<ChainStage<A>>,
    sent_before: Seq<Resource>,
    sent_after: Seq<Resource>,
)
    requires
        sends_back(before, after, sent_before, sent_after),
    ensures
        after.len() == before.len(),
        sent_before.is_prefix_of(sent_after),
        forall|k: int|
            #![trigger before[k]]
            0 <= k < before.len() ==> after[k] == before[k] || {
                &&& before[k].has_parked()
                &&& before[k].clears_to(after[k])
                &&& exists|n: int|
                    sent_before.len() <= n < sent_after.len() && Some(#[trigger] sent_after[n])
                        == before[k].parked()
            },
        sent_after.len() == sent_before.len() ==> after == before,
        sent_after.len() - sent_before.len() == parked_count(before) - parked_count(after),
    decreases before.len(),
{
    if before.len() > 0 {
        let last = before.len() - 1;
        let kept = after.last() == before.last() && sends_back(
            before.drop_last(),
            after.drop_last(),
            sent_before,
            sent_after,
        );
        let sent = if kept {
            sent_after
        } else {
            sent_after.drop_last()
        };
        a_pen_is_freed_only_by_sending_back(
            before.drop_last(),
            after.drop_last(),
            sent_before,
            sent,
        );
        if !kept {
            assert(sent_after =~= sent.push(sent_after.last()));
            assert(Some(sent_after[sent_after.len() - 1]) == before[last].parked());
        }
        assert forall|k: int|
            #![trigger before[k]]
            0 <= k < before.len() implies after[k] == before[k] || {
            &&& before[k].has_parked()
            &&& before[k].clears_to(after[k])
            &&& exists|n: int|
                sent_before.len() <= n < sent_after.len() && Some(#[trigger] sent_after[n])
                    == before[k].parked()
        } by {
            if k < last {
                assert(before.drop_last()[k] == before[k]);
                assert(after.drop_last()[k] == after[k]);
                if after[k] != before[k] {
                    let n = choose|n: int|
                        sent_before.len() <= n < sent.len() && Some(#[trigger] sent[n])
                            == before[k].parked();
                    assert(sent_after[n] == sent[n]);
                }
            }
        }
        if sent_after.len() == sent_before.len() {
            assert(kept);
            assert(after =~= after.drop_last().push(after.last()));
            assert(before =~= before.drop_last().push(before.last()));
        }
    } else {
        assert(after =~= before);
    }
}

/// How many readings the first `k` stages have.
pub open spec fn readings_up_to<A: SampleMath>(stages: Seq<ChainStage<A>>, k: int) -> nat
    decreases k,
{
    if k <= 0 {
        0
    } else {
        readings_up_to(stages, k - 1) + stages[k - 1].readings().len()
    }
}

/// The chain reports every reading of every stage, stage by stage in order, and behind them how
/// many blocks were faulty.
pub proof fn every_reading_is_reported_in_order<A: SampleMath>(chain: Chain<A>, k: int, i: int)
    requires
        0 <= k < chain.stages@.len(),
        0 <= i < chain.stages@[k].readings().len(),
    ensures
        chain.readings().len() == readings_up_to(chain.stages@, chain.stages@.len() as int) + 1,
        readings_up_to(chain.stages@, k) + i < chain.readings().len() - 1,
        chain.readings()[readings_up_to(chain.stages@, k) + i] == chain.stages@[k].readings()[i],
        chain.readings()[chain.readings().len() - 1] == (TelemetryEntry {
            id: chain.ids.fault_count,
            value: Sample::nearest_to(chain.fault_count as nat),
        }),
{
    lemma_readings(chain.stages@, k, i);
}

/// The readings of a row of stages.
proof fn lemma_readings<A: SampleMath>(stages: Seq<ChainStage<A>>, k: int, i: int)
    requires
        0 <= k < stages.len(),
        0 <= i < stages[k].readings().len(),
    ensures
        all_readings(stages).len() == readings_up_to(stages, stages.len() as int),
        readings_up_to(stages, k) + i < all_readings(stages).len(),
        all_readings(stages)[readings_up_to(stages, k) + i] == stages[k].readings()[i],
    decreases stages.len(),
{
    let first = stages.drop_last();
    lemma_readings_count(stages);
    lemma_readings_count(first);
    lemma_same_count(first, stages, first.len() as int);
    if k < first.len() {
        lemma_readings(first, k, i);
        lemma_same_count(first, stages, k);
    }
}

/// How many readings a row of stages has.
proof fn lemma_readings_count<A: SampleMath>(stages: Seq<ChainStage<A>>)
    ensures
        all_readings(stages).len() == readings_up_to(stages, stages.len() as int),
    decreases stages.len(),
{
    if stages.len() > 0 {
        lemma_readings_count(stages.drop_last());
        lemma_same_count(stages.drop_last(), stages, stages.len() - 1);
    }
}

/// What comes later does not count.
proof fn lemma_same_count<A: SampleMath>(a: Seq<ChainStage<A>>, b: Seq<ChainStage<A>>, k: int)
    requires
        0 <= k <= a.len(),
        k <= b.len(),
        forall|i: int| 0 <= i < k ==> a[i] == b[i],
    ensures
        readings_up_to(a, k) == readings_up_to(b, k),
    decreases k,
{
    if k > 0 {
        lemma_same_count(a, b, k - 1);
    }
}

/// A preparation starts out from silence, with lines that reach back a quarter of a second and at
/// least as far as the delay the chain reports, and keeps stages, settings and fault count.
pub proof fn a_preparation_starts_from_silence<A: SampleMath>(
    chain: Chain<A>,
    ctx: PrepareContext,
    after: Chain<A>,
)
    requires
        chain.prepares_to(ctx, after),
    ensures
        after == (Chain { cross_cutting: after.cross_cutting, ..chain }),
        after.cross_cutting is Some,
        ({
            let cc = after.cross_cutting->0;
            &&& cc.prepared_for == ctx
            &&& !cc.started
            &&& cc.blend.mix == open_if(false)
            &&& cc.blend.target == open_if(false)
            &&& call_ensures(
                A::one_pole_coefficient,
                (&chain.math, 15u32, ctx.rate()),
                cc.blend.coefficient,
            )
            &&& cc.delay_lines@.len() == ctx.channels()
            &&& forall|c: int|
                0 <= c < ctx.channels() ==> {
                    let line = (#[trigger] cc.delay_lines@[c])@;
                    &&& forall|i: int| 0 <= i < line.len() ==> (#[trigger] line[i]).bits == 0
                    &&& line.len() < isize::MAX / 4 ==> line.len() > reported(chain) && 4 * (
                    line.len() - 1) >= ctx.rate()
                    &&& line.len() <= isize::MAX / 4
                    &&& line.len() >= 1
                    &&& line.len() - 1 <= reported(chain) || 4 * (line.len() - 2) < ctx.rate()
                }
        }),
{
    delays_add_up(chain.stages@);
    let cc = after.cross_cutting->0;
    let latency = saturated(total_latency(chain.stages@));
    assert(latency == reported(chain));
    assert(line_capacity(ctx.rate(), latency) >= 1);
    assert forall|c: int| 0 <= c < ctx.channels() implies {
        let line = (#[trigger] cc.delay_lines@[c])@;
        &&& forall|i: int| 0 <= i < line.len() ==> (#[trigger] line[i]).bits == 0
        &&& line.len() < isize::MAX / 4 ==> line.len() > reported(chain) && 4 * (line.len() - 1)
            >= ctx.rate()
        &&& line.len() <= isize::MAX / 4
        &&& line.len() >= 1
        &&& line.len() - 1 <= reported(chain) || 4 * (line.len() - 2) < ctx.rate()
    } by {}
}

} // verus!
