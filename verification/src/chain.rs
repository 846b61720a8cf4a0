//! The chain: stages in order, and what applies to all of them together: the global bypass with its
//! latency compensation and crossfade, fault containment, and the output ceiling.

use vstd::prelude::*;

use crate::chain_stage::{copies_among, copies_of, copies_offered, ChainStage};
use crate::command::{counted_up, RetireSink};
use crate::delay_line::{delayed, reachable, DelayLine};
use crate::math::SampleMath;
use crate::param::{ParamChange, ParamId};
use crate::prepare::PrepareContext;
use crate::resource::{Resource, ResourceKind};
use crate::sample::Sample;
use crate::stage_io::{block_of, silent_block, StageIo};
use crate::stages::bypass::{block_blends, BypassBlend, BYPASS_CROSSFADE_TIME_CONSTANT_MS};
use crate::telemetry::{newest, newest_of_newest, TelemetryEntry, TelemetrySink};

verus! {

/// The longest latency the bypass compensation is sized for, as a fraction of a second: one
/// quarter. A chain that already reports more gets a line long enough for that.
pub const COMPENSATION_FRACTION: u32 = 4;

/// The ids the chain itself answers to and reports under.
#[derive(Clone, Copy, Debug, PartialEq, Eq, Structural)]
pub struct ChainIds {
    /// Switches the global bypass on and off.
    pub bypass: ParamId,
    /// The output ceiling, in decibels.
    pub output_ceiling_db: ParamId,
    /// Reports how many blocks were faulty.
    pub fault_count: u32,
}

/// Whether every sample of a block is a finite number.
pub open spec fn all_finite(block: Seq<Seq<Sample>>) -> bool {
    forall|ch: int, i: int|
        0 <= ch < block.len() && 0 <= i < block[ch].len() ==> (#[trigger] block[ch][i]).finite()
}

/// A block with every sample clamped to the ceiling.
pub open spec fn limited_block(block: Seq<Seq<Sample>>, ceiling: Sample) -> Seq<Seq<Sample>> {
    Seq::new(
        block.len(),
        |ch: int| Seq::new(block[ch].len(), |i: int| block[ch][i].limited(ceiling)),
    )
}

/// What leaves the chain for a block of this many frames: silence if any sample of it is not a
/// finite number; otherwise the block, clamped if the ceiling applies.
pub open spec fn contained(
    block: Seq<Seq<Sample>>,
    frames: nat,
    ceiling: Sample,
    apply_ceiling: bool,
) -> Seq<Seq<Sample>> {
    if !all_finite(block) {
        silent_block(block.len(), frames)
    } else if apply_ceiling {
        limited_block(block, ceiling)
    } else {
        block
    }
}

/// A count after a block: one more if the block was faulty.
pub open spec fn counted(count: u64, faulty: bool) -> u64 {
    if faulty && count < u64::MAX {
        (count + 1) as u64
    } else {
        count
    }
}

/// Fault containment leaves only finite samples, and with the ceiling in force none that exceeds
/// it.
pub proof fn containment_lets_nothing_harmful_out(
    block: Seq<Seq<Sample>>,
    frames: nat,
    ceiling: Sample,
    apply_ceiling: bool,
)
    requires
        ceiling.is_ceiling(),
    ensures
        all_finite(contained(block, frames, ceiling, apply_ceiling)),
        apply_ceiling ==> forall|ch: int, i: int|
            0 <= ch < block.len() && 0 <= i < contained(
                block,
                frames,
                ceiling,
                apply_ceiling,
            )[ch].len() ==> (#[trigger] contained(
                block,
                frames,
                ceiling,
                apply_ceiling,
            )[ch][i]).magnitude() <= ceiling.magnitude(),
{
}

/// What a run through stages comes to: each stage makes its own of what the one before it made.
pub open spec fn stages_play<A: SampleMath>(
    before: Seq<ChainStage<A>>,
    after: Seq<ChainStage<A>>,
    input: Seq<Seq<Sample>>,
    output: Seq<Seq<Sample>>,
) -> bool
    decreases before.len(),
{
    if before.len() == 0 {
        after.len() == 0 && output == input
    } else {
        &&& after.len() == before.len()
        &&& exists|between: Seq<Seq<Sample>>|
            stages_play(before.drop_last(), after.drop_last(), input, between)
                && #[trigger] before.last().plays(between, output, after.last())
    }
}

/// The delays of stages add up.
pub open spec fn total_latency<A: SampleMath>(stages: Seq<ChainStage<A>>) -> nat
    decreases stages.len(),
{
    if stages.len() == 0 {
        0
    } else {
        total_latency(stages.drop_last()) + stages.last().latency() as nat
    }
}

/// The largest 32-bit value, if `n` is larger than that.
pub open spec fn saturated(n: nat) -> u32 {
    if n <= u32::MAX {
        n as u32
    } else {
        u32::MAX
    }
}

/// What the chain keeps once it has been prepared.
pub struct CrossCutting {
    /// The compensation delay of each channel.
    pub delay_lines: Vec<DelayLine>,
    /// This block's delayed dry signal.
    pub dry: StageIo,
    /// One channel of it on its way there.
    pub scratch: Vec<Sample>,
    /// The bypass crossfade: 0 is the stages' output, 1 is the delayed dry signal.
    pub blend: BypassBlend,
    /// Whether a block has been processed since the preparation.
    pub started: bool,
    /// What the chain was prepared for.
    pub prepared_for: PrepareContext,
}

/// The most samples that one buffer can hold.
pub open spec fn largest_buffer() -> nat {
    (isize::MAX / 4) as nat
}

/// The samples a compensation line remembers: enough for a quarter of a second, or for the latency
/// the chain reports when it is prepared, whichever is more, as far as one buffer can hold that.
pub open spec fn line_capacity(rate_hz: u32, latency: u32) -> nat {
    let quarter = (rate_hz + COMPENSATION_FRACTION - 1) / COMPENSATION_FRACTION as int;
    let wanted = (if quarter >= latency {
        quarter
    } else {
        latency as int
    }) + 1;
    if wanted <= largest_buffer() {
        wanted as nat
    } else {
        largest_buffer()
    }
}

impl CrossCutting {
    /// One line per channel, all of the same capacity, and buffers that carry the largest block.
    pub open spec fn wf(&self) -> bool {
        &&& self.delay_lines@.len() == self.prepared_for.channels()
        &&& forall|ch: int|
            0 <= ch < self.delay_lines@.len() ==> (#[trigger] self.delay_lines@[ch]).wf()
        &&& self.dry@.len() == self.prepared_for.channels()
        &&& self.dry.shape().1.len() == self.prepared_for.channels()
        &&& self.dry.carries(self.prepared_for.max_frames() as nat)
        &&& self.scratch@.len() == self.prepared_for.max_frames()
    }

    /// Whether this is what a chain of these stages keeps when it has just been prepared for `ctx`:
    /// nothing processed yet, the bypass blend at its beginning, and silence in every line.
    pub open spec fn fresh<A: SampleMath>(
        &self,
        math: A,
        stages: Seq<ChainStage<A>>,
        ctx: PrepareContext,
    ) -> bool {
        &&& self.prepared_for == ctx
        &&& !self.started
        &&& self.blend.mix == Sample::zero()
        &&& self.blend.target == Sample::zero()
        &&& call_ensures(
            A::one_pole_coefficient,
            (&math, BYPASS_CROSSFADE_TIME_CONSTANT_MS, ctx.rate()),
            self.blend.coefficient,
        )
        &&& self.delay_lines@.len() == ctx.channels()
        &&& forall|ch: int|
            0 <= ch < ctx.channels() ==> (#[trigger] self.delay_lines@[ch])@ == Seq::new(
                line_capacity(ctx.rate(), saturated(total_latency(stages))),
                |i: int| Sample::zero(),
            )
    }

    /// Whether this state has room for a block of this many frames and channels.
    pub open spec fn takes(&self, frames: nat, channels: nat) -> bool {
        &&& frames <= self.prepared_for.max_frames()
        &&& channels == self.prepared_for.channels()
    }

    /// What each line remembers after it has been fed a block.
    pub open spec fn fed(&self, input: Seq<Seq<Sample>>, lines: Seq<DelayLine>) -> bool {
        &&& lines.len() == self.delay_lines@.len()
        &&& forall|ch: int|
            0 <= ch < lines.len() ==> (#[trigger] lines[ch])@ == newest(
                self.delay_lines@[ch]@ + input[ch],
                self.delay_lines@[ch]@.len(),
            )
    }

    /// Whether `dry` is `input`, late by `delay` samples, as far as the lines reach back.
    pub open spec fn delays(
        &self,
        input: Seq<Seq<Sample>>,
        delay: nat,
        dry: Seq<Seq<Sample>>,
    ) -> bool {
        &&& dry.len() == input.len()
        &&& forall|ch: int| 0 <= ch < input.len() ==> #[trigger] dry[ch].len() == input[ch].len()
        &&& forall|ch: int, i: int|
            0 <= ch < input.len() && 0 <= i < input[ch].len() ==> #[trigger] dry[ch][i] == delayed(
                self.delay_lines@[ch]@,
                input[ch],
                reachable(delay, self.delay_lines@[ch]@.len()),
                i,
            )
    }

    /// Feeds every channel's line from the block and, when `capture` is set, leaves the delayed
    /// copy in `dry`. Every block feeds the lines, bypassed or not, so that switching the bypass
    /// finds real signal in them; only a chain without latency that owes the bypass nothing skips
    /// it, since nothing would ever be read back.
    pub fn capture_dry(&mut self, io: &StageIo, delay: usize, capture: bool)
        requires
            old(self).wf(),
            io.wf(),
            old(self).takes(io.length(), io@.len()),
        ensures
            final(self).wf(),
            final(self).blend == old(self).blend,
            final(self).started == old(self).started,
            final(self).prepared_for == old(self).prepared_for,
            delay == 0 && !capture ==> final(self).delay_lines@ == old(self).delay_lines@,
            delay > 0 || capture ==> old(self).fed(io@, final(self).delay_lines@),
            capture ==> final(self).dry.wf() && final(self).dry.length() == io.length()
                && old(self).delays(io@, delay as nat, final(self).dry@),
    {
        broadcast use StageIo::view_has_the_shape;

        if delay == 0 && !capture {
            return;
        }
        let frames: usize = io.frames();
        self.dry.set_frames(frames);
        let ghost shape = self.dry.shape();
        let channels: usize = io.channel_count();
        let ghost before = self.delay_lines@;
        let mut ch: usize = 0;
        while ch < channels
            invariant
                ch <= channels,
                channels == io@.len(),
                io.wf(),
                frames == io.length(),
                self.blend == old(self).blend,
                self.started == old(self).started,
                self.prepared_for == old(self).prepared_for,
                before == old(self).delay_lines@,
                channels == self.prepared_for.channels(),
                frames <= self.prepared_for.max_frames(),
                self.delay_lines@.len() == channels,
                before.len() == channels,
                forall|c: int| 0 <= c < channels ==> (#[trigger] self.delay_lines@[c]).wf(),
                forall|c: int|
                    ch <= c < channels ==> #[trigger] self.delay_lines@[c] == before[c],
                forall|c: int|
                    0 <= c < ch ==> (#[trigger] self.delay_lines@[c])@ == newest(
                        before[c]@ + io@[c],
                        before[c]@.len(),
                    ),
                self.dry.wf(),
                self.dry.shape() == shape,
                shape.0 == frames,
                shape.1 == old(self).dry.shape().1,
                self.dry@.len() == channels,
                self.scratch@.len() == self.prepared_for.max_frames(),
                capture ==> forall|c: int, i: int|
                    0 <= c < ch && 0 <= i < frames ==> #[trigger] self.dry@[c][i] == delayed(
                        before[c]@,
                        io@[c],
                        reachable(delay as nat, before[c]@.len()),
                        i,
                    ),
            decreases channels - ch,
        {
            proof {
                io.view_has_the_shape();
            }
            let samples: &[Sample] = io.samples(ch);
            self.delay_lines[ch].run(samples, delay, capture, &mut self.scratch);
            if capture {
                self.dry.load(ch, &self.scratch);
            }
            ch = ch + 1;
        }
        proof {
            io.view_has_the_shape();
        }
    }
}

/// Whether every sample of the block is a finite number.
fn is_all_finite(io: &StageIo) -> (finite: bool)
    requires
        io.wf(),
    ensures
        finite == all_finite(io@),
{
    broadcast use StageIo::view_has_the_shape;

    let channels: usize = io.channel_count();
    let frames: usize = io.frames();
    proof {
        io.view_has_the_shape();
    }
    let mut ch: usize = 0;
    while ch < channels
        invariant
            ch <= channels,
            channels == io@.len(),
            frames == io.length(),
            io.wf(),
            block_of(io@, frames as nat),
            forall|c: int, k: int|
                0 <= c < ch && 0 <= k < frames ==> (#[trigger] io@[c][k]).finite(),
        decreases channels - ch,
    {
        let mut i: usize = 0;
        while i < frames
            invariant
                i <= frames,
                ch < channels,
                channels == io@.len(),
                frames == io.length(),
                io.wf(),
                block_of(io@, frames as nat),
                forall|c: int, k: int|
                    0 <= c < ch && 0 <= k < frames ==> (#[trigger] io@[c][k]).finite(),
                forall|k: int| 0 <= k < i ==> (#[trigger] io@[ch as int][k]).finite(),
            decreases frames - i,
        {
            let sample: Sample = io.get(ch, i);
            if !sample.is_finite() {
                assert(!io@[ch as int][i as int].finite());
                return false;
            }
            i = i + 1;
        }
        ch = ch + 1;
    }
    true
}

/// Clamps every sample of the block to the ceiling.
fn clamp_block(io: &mut StageIo, ceiling: Sample)
    requires
        old(io).wf(),
        ceiling.is_ceiling(),
    ensures
        final(io).shape() == old(io).shape(),
        final(io)@ == limited_block(old(io)@, ceiling),
{
    broadcast use StageIo::view_has_the_shape;

    let channels: usize = io.channel_count();
    let frames: usize = io.frames();
    let ghost block = io@;
    proof {
        io.view_has_the_shape();
    }
    let mut ch: usize = 0;
    while ch < channels
        invariant
            ch <= channels,
            channels == io@.len(),
            channels == block.len(),
            frames == io.length(),
            io.wf(),
            io.shape() == old(io).shape(),
            ceiling.is_ceiling(),
            block_of(block, frames as nat),
            forall|c: int| ch <= c < channels ==> #[trigger] io@[c] == block[c],
            forall|c: int|
                0 <= c < ch ==> #[trigger] io@[c] == Seq::new(
                    block[c].len(),
                    |i: int| block[c][i].limited(ceiling),
                ),
        decreases channels - ch,
    {
        let mut i: usize = 0;
        while i < frames
            invariant
                i <= frames,
                ch < channels,
                channels == io@.len(),
                channels == block.len(),
                frames == io.length(),
                io.wf(),
                io.shape() == old(io).shape(),
                ceiling.is_ceiling(),
                block_of(block, frames as nat),
                io@[ch as int].len() == frames,
                block[ch as int].len() == frames,
                forall|c: int| ch < c < channels ==> #[trigger] io@[c] == block[c],
                forall|c: int|
                    0 <= c < ch ==> #[trigger] io@[c] == Seq::new(
                        block[c].len(),
                        |i: int| block[c][i].limited(ceiling),
                    ),
                forall|k: int|
                    i <= k < frames ==> #[trigger] io@[ch as int][k] == block[ch as int][k],
                forall|k: int|
                    0 <= k < i ==> #[trigger] io@[ch as int][k] == block[ch as int][k].limited(
                        ceiling,
                    ),
            decreases frames - i,
        {
            let sample: Sample = io.get(ch, i);
            io.set(ch, i, sample.clamp_magnitude(ceiling));
            i = i + 1;
        }
        assert(io@[ch as int] =~= Seq::new(
            block[ch as int].len(),
            |i: int| block[ch as int][i].limited(ceiling),
        ));
        ch = ch + 1;
    }
    assert(io@ =~= limited_block(block, ceiling));
}

/// Silences the whole block if any sample of it is not a finite number, and counts that as one
/// fault, however many samples it was. Otherwise clamps the block, if the ceiling applies.
pub fn scan_and_clamp(
    io: &mut StageIo,
    ceiling: Sample,
    apply_ceiling: bool,
    fault_count: &mut u64,
)
    requires
        old(io).wf(),
        ceiling.is_ceiling(),
    ensures
        final(io).shape() == old(io).shape(),
        final(io)@ == contained(old(io)@, old(io).length(), ceiling, apply_ceiling),
        *final(fault_count) == counted(*old(fault_count), !all_finite(old(io)@)),
{
    if !is_all_finite(io) {
        io.silence();
        if *fault_count < u64::MAX {
            *fault_count = *fault_count + 1;
        }
        return;
    }
    if apply_ceiling {
        clamp_block(io, ceiling);
    }
}

/// Stages in order, and what applies to all of them together.
pub struct Chain<A: SampleMath> {
    /// The stages, first to last.
    pub stages: Vec<ChainStage<A>>,
    /// The ids the chain itself answers to and reports under.
    pub ids: ChainIds,
    /// The arithmetic of the bypass crossfade.
    pub math: A,
    /// Whether the chain is bypassed, or on its way there.
    pub global_bypass: bool,
    /// The output ceiling as a linear factor.
    pub output_ceiling_linear: Sample,
    /// How many blocks had a sample that was not a finite number.
    pub fault_count: u64,
    /// What the chain keeps once it has been prepared.
    pub cross_cutting: Option<CrossCutting>,
}

/// Which of the two sides of the bypass a block owes anything to.
#[derive(Clone, Copy, Debug, PartialEq, Eq, Structural)]
pub struct BlockShape {
    /// The crossfade position the block starts from.
    pub mix: Sample,
    /// The position it moves towards.
    pub target: Sample,
    /// Whether the delayed dry signal contributes.
    pub dry: bool,
    /// Whether the stages' output contributes.
    pub wet: bool,
}

impl BlockShape {
    /// Bypass off and settled: the stages' output. Bypass on and settled: the dry signal. Anything
    /// in between: both. The first block after a preparation starts out settled.
    pub open spec fn of(started: bool, mix: Sample, bypassed: bool) -> BlockShape {
        let target = Sample::of_flag(bypassed);
        let start = if started {
            mix
        } else {
            target
        };
        BlockShape {
            mix: start,
            target,
            dry: start.passes(Sample::zero()) || target.passes(Sample::zero()),
            wet: Sample::one().passes(start) || Sample::one().passes(target),
        }
    }

    /// Computes the shape of a block.
    pub fn compute(started: bool, mix: Sample, bypassed: bool) -> (shape: BlockShape)
        ensures
            shape == BlockShape::of(started, mix, bypassed),
    {
        let target: Sample = Sample::from_flag(bypassed);
        let start: Sample = if started {
            mix
        } else {
            target
        };
        BlockShape {
            mix: start,
            target,
            dry: start.exceeds(Sample::zero()) || target.exceeds(Sample::zero()),
            wet: Sample::one().exceeds(start) || Sample::one().exceeds(target),
        }
    }
}

/// The three shapes: a settled block takes one side alone, and which one is the bypass switch.
pub proof fn settled_blocks_take_one_side(bypassed: bool)
    ensures
        BlockShape::of(false, Sample::zero(), bypassed).dry == bypassed,
        BlockShape::of(false, Sample::zero(), bypassed).wet == !bypassed,
        BlockShape::of(true, Sample::of_flag(bypassed), bypassed).dry == bypassed,
        BlockShape::of(true, Sample::of_flag(bypassed), bypassed).wet == !bypassed,
        BlockShape::of(true, Sample::of_flag(!bypassed), bypassed).dry,
        BlockShape::of(true, Sample::of_flag(!bypassed), bypassed).wet,
{
}

/// How many times stages hold the resource asked for.
pub open spec fn copies_held<A: SampleMath>(
    stages: Seq<ChainStage<A>>,
    kind: ResourceKind,
    id: int,
) -> nat
    decreases stages.len(),
{
    if stages.len() == 0 {
        0
    } else {
        copies_held(stages.drop_last(), kind, id) + stages.last().copies(kind, id)
    }
}

/// Whether every stage is in order.
pub open spec fn all_wf<A: SampleMath>(stages: Seq<ChainStage<A>>) -> bool {
    forall|i: int| 0 <= i < stages.len() ==> (#[trigger] stages[i]).wf()
}

/// Whether every stage has room for a block of this many frames and channels.
pub open spec fn all_take<A: SampleMath>(
    stages: Seq<ChainStage<A>>,
    frames: nat,
    channels: nat,
) -> bool {
    forall|i: int| 0 <= i < stages.len() ==> (#[trigger] stages[i]).takes(frames, channels)
}

/// Whether the stages are still the same ones, each of its kind and prepared for its context.
pub open spec fn all_stay<A: SampleMath>(
    before: Seq<ChainStage<A>>,
    after: Seq<ChainStage<A>>,
) -> bool {
    &&& after.len() == before.len()
    &&& forall|i: int| 0 <= i < before.len() ==> before[i].stays(#[trigger] after[i])
}

/// Stages that stay go on taking the same blocks.
pub proof fn staying_keeps_room<A: SampleMath>(
    before: Seq<ChainStage<A>>,
    after: Seq<ChainStage<A>>,
    frames: nat,
    channels: nat,
)
    requires
        all_stay(before, after),
    ensures
        all_take(after, frames, channels) == all_take(before, frames, channels),
{
    if all_take(before, frames, channels) {
        assert forall|i: int| 0 <= i < after.len() implies (#[trigger] after[i]).takes(
            frames,
            channels,
        ) by {
            assert(before[i].takes(frames, channels));
        }
    }
    if all_take(after, frames, channels) {
        assert forall|i: int| 0 <= i < before.len() implies (#[trigger] before[i]).takes(
            frames,
            channels,
        ) by {
            assert(after[i].takes(frames, channels));
        }
    }
}

proof fn lemma_same_copies<A: SampleMath>(
    before: Seq<ChainStage<A>>,
    after: Seq<ChainStage<A>>,
    kind: ResourceKind,
    id: int,
)
    requires
        before.len() == after.len(),
        forall|i: int|
            0 <= i < before.len() ==> (#[trigger] after[i]).copies(kind, id) == before[i].copies(
                kind,
                id,
            ),
    ensures
        copies_held(after, kind, id) == copies_held(before, kind, id),
    decreases before.len(),
{
    if before.len() > 0 {
        let last = before.len() - 1;
        let (first, then) = (before.drop_last(), after.drop_last());
        assert forall|i: int| 0 <= i < last implies (#[trigger] then[i]).copies(kind, id)
            == first[i].copies(kind, id) by {
            assert(after[i].copies(kind, id) == before[i].copies(kind, id));
        }
        lemma_same_copies(first, then, kind, id);
        assert(after[last].copies(kind, id) == before[last].copies(kind, id));
    }
}

/// Changing one stage changes the total by what that stage changes.
proof fn lemma_one_stage_changes<A: SampleMath>(
    before: Seq<ChainStage<A>>,
    at: int,
    stage: ChainStage<A>,
    kind: ResourceKind,
    id: int,
)
    requires
        0 <= at < before.len(),
    ensures
        copies_held(before.update(at, stage), kind, id) + before[at].copies(kind, id)
            == copies_held(before, kind, id) + stage.copies(kind, id),
    decreases before.len(),
{
    let after = before.update(at, stage);
    if at == before.len() - 1 {
        assert(after.drop_last() =~= before.drop_last());
    } else {
        lemma_one_stage_changes(before.drop_last(), at, stage, kind, id);
        assert(after.drop_last() =~= before.drop_last().update(at, stage));
    }
}

/// The delays of the stages from `k` on add up.
pub open spec fn latency_from<A: SampleMath>(stages: Seq<ChainStage<A>>, k: int) -> nat
    decreases stages.len() - k,
{
    if k >= stages.len() || k < 0 {
        0
    } else {
        stages[k].latency() as nat + latency_from(stages, k + 1)
    }
}

/// How long what stage `k` goes on sounding takes to leave the chain: its own tail, and the delays
/// of every stage after it.
pub open spec fn tail_contribution<A: SampleMath>(stages: Seq<ChainStage<A>>, k: int) -> u32 {
    saturated(stages[k].tail() as nat + latency_from(stages, k + 1))
}

/// The longest contribution of the stages from `k` on.
pub open spec fn longest_tail<A: SampleMath>(stages: Seq<ChainStage<A>>, k: int) -> u32
    decreases stages.len() - k,
{
    if k >= stages.len() || k < 0 {
        0
    } else if tail_contribution(stages, k) >= longest_tail(stages, k + 1) {
        tail_contribution(stages, k)
    } else {
        longest_tail(stages, k + 1)
    }
}

/// The tail of a chain is the longest of its stages' contributions, not their sum: no stage takes
/// longer to fall silent at the output, and one takes exactly that long, unless none sounds at all.
pub proof fn tail_is_the_longest_contribution<A: SampleMath>(stages: Seq<ChainStage<A>>, k: int)
    requires
        0 <= k <= stages.len(),
    ensures
        forall|i: int|
            k <= i < stages.len() ==> #[trigger] tail_contribution(stages, i) <= longest_tail(
                stages,
                k,
            ),
        longest_tail(stages, k) == 0 || exists|i: int|
            k <= i < stages.len() && #[trigger] tail_contribution(stages, i) == longest_tail(
                stages,
                k,
            ),
    decreases stages.len() - k,
{
    if k < stages.len() {
        tail_is_the_longest_contribution(stages, k + 1);
        let rest = longest_tail(stages, k + 1);
        if tail_contribution(stages, k) < rest {
            let i = choose|i: int|
                k + 1 <= i < stages.len() && #[trigger] tail_contribution(stages, i) == rest;
            assert(tail_contribution(stages, i) == longest_tail(stages, k));
        }
    }
}

impl<A: SampleMath> Chain<A> {
    /// Every stage is in order, a prepared chain's stages take every block it is prepared for, and
    /// the ceiling can be clamped to.
    pub open spec fn wf(&self) -> bool {
        &&& all_wf(self.stages@)
        &&& self.output_ceiling_linear.is_ceiling()
        &&& self.cross_cutting matches Some(cc) ==> {
            &&& cc.wf()
            &&& forall|frames: nat|
                frames <= cc.prepared_for.max_frames() ==> #[trigger] all_take(
                    self.stages@,
                    frames,
                    cc.prepared_for.channels(),
                )
        }
    }

    /// Whether the chain has room for a block of this many frames and channels.
    pub open spec fn takes(&self, frames: nat, channels: nat) -> bool {
        match self.cross_cutting {
            Some(cc) => cc.takes(frames, channels),
            None => all_take(self.stages@, frames, channels),
        }
    }

    /// How many times the chain holds the resource asked for.
    pub open spec fn copies(&self, kind: ResourceKind, id: int) -> nat {
        copies_held(self.stages@, kind, id)
    }

    /// What the chain was prepared for, if it was.
    pub open spec fn context(&self) -> Option<PrepareContext> {
        match self.cross_cutting {
            Some(cc) => Some(cc.prepared_for),
            None => None,
        }
    }

    /// Wraps a list of prepared stages. Latency compensation, fault containment and the output
    /// ceiling stay inactive until [`Chain::prepare_crosscutting`] is called.
    pub fn new(stages: Vec<ChainStage<A>>, ids: ChainIds, math: A) -> (chain: Chain<A>)
        requires
            all_wf(stages@),
        ensures
            chain.wf(),
            chain.stages@ == stages@,
            chain.ids == ids,
            chain.math == math,
            !chain.global_bypass,
            chain.output_ceiling_linear == Sample::one(),
            chain.fault_count == 0,
            chain.cross_cutting is None,
    {
        Chain {
            stages,
            ids,
            math,
            global_bypass: false,
            output_ceiling_linear: Sample::one(),
            fault_count: 0,
            cross_cutting: None,
        }
    }

    /// The delay of the whole chain: each stage receives what the one before it has already
    /// delayed, so the delays add up.
    pub fn latency_samples(&self) -> (samples: u32)
        ensures
            samples == saturated(total_latency(self.stages@)),
    {
        let mut sum: u32 = 0;
        let mut i: usize = 0;
        while i < self.stages.len()
            invariant
                i <= self.stages@.len(),
                sum == saturated(total_latency(self.stages@.take(i as int))),
            decreases self.stages@.len() - i,
        {
            let own: u32 = self.stages[i].latency_samples();
            assert(self.stages@.take(i + 1).drop_last() =~= self.stages@.take(i as int));
            sum = if own <= u32::MAX - sum {
                sum + own
            } else {
                u32::MAX
            };
            i = i + 1;
        }
        assert(self.stages@.take(i as int) =~= self.stages@);
        sum
    }

    /// How long the chain goes on sounding after its input has gone silent: whichever stage's tail
    /// takes longest to leave it.
    pub fn tail_samples(&self) -> (samples: u32)
        ensures
            samples == longest_tail(self.stages@, 0),
    {
        let mut downstream: u32 = 0;
        let mut longest: u32 = 0;
        let mut i: usize = self.stages.len();
        while i > 0
            invariant
                i <= self.stages@.len(),
                downstream == saturated(latency_from(self.stages@, i as int)),
                longest == longest_tail(self.stages@, i as int),
            decreases i,
        {
            i = i - 1;
            let tail: u32 = self.stages[i].tail_samples();
            let contribution: u32 = if tail <= u32::MAX - downstream {
                tail + downstream
            } else {
                u32::MAX
            };
            assert(contribution == tail_contribution(self.stages@, i as int));
            if contribution >= longest {
                longest = contribution;
            }
            let own: u32 = self.stages[i].latency_samples();
            downstream = if own <= u32::MAX - downstream {
                own + downstream
            } else {
                u32::MAX
            };
        }
        longest
    }

    /// Switches latency compensation, fault containment and the output ceiling on, for blocks
    /// within `ctx`.
    pub fn prepare_crosscutting(&mut self, ctx: &PrepareContext)
        requires
            old(self).wf(),
            forall|frames: nat|
                frames <= ctx.max_frames() ==> #[trigger] all_take(
                    old(self).stages@,
                    frames,
                    ctx.channels(),
                ),
        ensures
            final(self).wf(),
            old(self).prepares_to(*ctx, *final(self)),
    {
        let channels: usize = ctx.channel_config().output_channels();
        let rate: u32 = ctx.sample_rate().hz();
        let coefficient: Sample = self.math.one_pole_coefficient(
            BYPASS_CROSSFADE_TIME_CONSTANT_MS,
            rate,
        );
        let latency: u32 = self.latency_samples();
        let quarter: u64 = (rate as u64 + COMPENSATION_FRACTION as u64 - 1)
            / COMPENSATION_FRACTION as u64;
        let reach: u64 = if quarter >= latency as u64 {
            quarter
        } else {
            latency as u64
        };
        let limit: usize = (isize::MAX / 4) as usize;
        let capacity: usize = if reach < limit as u64 {
            (reach + 1) as usize
        } else {
            limit
        };
        let mut delay_lines: Vec<DelayLine> = Vec::new();
        let mut ch: usize = 0;
        while ch < channels
            invariant
                ch <= channels,
                capacity >= 1,
                delay_lines@.len() == ch,
                forall|c: int|
                    0 <= c < ch ==> (#[trigger] delay_lines@[c]).wf() && delay_lines@[c]@
                        == Seq::new(capacity as nat, |i: int| Sample::zero()),
            decreases channels - ch,
        {
            delay_lines.push(DelayLine::new(capacity));
            ch = ch + 1;
        }
        self.cross_cutting = Some(
            CrossCutting {
                delay_lines,
                dry: StageIo::zeroed(channels, ctx.max_block_size()),
                scratch: vec![Sample::zero(); ctx.max_block_size()],
                blend: BypassBlend { mix: Sample::zero(), target: Sample::zero(), coefficient },
                started: false,
                prepared_for: *ctx,
            },
        );
    }

    /// What the chain was prepared for, if it was.
    pub fn prepared_for(&self) -> (ctx: Option<PrepareContext>)
        ensures
            ctx == self.context(),
    {
        match &self.cross_cutting {
            Some(cc) => Some(cc.prepared_for),
            None => None,
        }
    }

    /// Switches the global bypass. On a prepared chain this sets the target of a crossfade; on an
    /// unprepared one it takes effect at once.
    pub fn set_global_bypass(&mut self, enabled: bool)
        ensures
            *final(self) == (Chain { global_bypass: enabled, ..*old(self) }),
    {
        self.global_bypass = enabled;
    }

    /// Sets the output ceiling. A level that cannot be clamped to leaves the ceiling as it was.
    pub fn set_output_ceiling_db(&mut self, db: Sample)
        ensures
            exists|linear: Sample|
                #![trigger linear.is_ceiling()]
                call_ensures(A::db_to_linear, (&old(self).math, db), linear) && *final(self) == (
                Chain {
                    output_ceiling_linear: if linear.is_ceiling() {
                        linear
                    } else {
                        old(self).output_ceiling_linear
                    },
                    ..*old(self)
                }),
    {
        let linear: Sample = self.math.db_to_linear(db);
        if linear.usable_as_ceiling() {
            self.output_ceiling_linear = linear;
        }
    }

    /// How many blocks had a sample that was not a finite number.
    pub fn fault_count(&self) -> (count: u64)
        ensures
            count == self.fault_count,
    {
        self.fault_count
    }

    /// Runs every stage in order.
    fn run_stages(&mut self, io: &mut StageIo)
        requires
            all_wf(old(self).stages@),
            all_take(old(self).stages@, old(io).length(), old(io)@.len()),
            old(io).wf(),
        ensures
            all_wf(final(self).stages@),
            all_stay(old(self).stages@, final(self).stages@),
            final(io).shape() == old(io).shape(),
            stages_play(old(self).stages@, final(self).stages@, old(io)@, final(io)@),
            forall|kind: ResourceKind, id: int| #[trigger]
                final(self).copies(kind, id) == old(self).copies(kind, id),
            *final(self) == (Chain { stages: final(self).stages, ..*old(self) }),
    {
        broadcast use StageIo::view_has_the_shape;

        let ghost before = self.stages@;
        let ghost input = io@;
        let count: usize = self.stages.len();
        let mut i: usize = 0;
        assert(stages_play(before.take(0), self.stages@.take(0), input, io@));
        while i < count
            invariant
                i <= count,
                count == self.stages@.len(),
                before == old(self).stages@,
                before.len() == count,
                input == old(io)@,
                all_wf(before),
                all_take(before, old(io).length(), old(io)@.len()),
                old(io).wf(),
                io.shape() == old(io).shape(),
                stages_play(before.take(i as int), self.stages@.take(i as int), input, io@),
                *self == (Chain { stages: self.stages, ..*old(self) }),
                all_wf(self.stages@),
                forall|k: int| i <= k < count ==> #[trigger] self.stages@[k] == before[k],
                forall|k: int| 0 <= k < count ==> before[k].stays(#[trigger] self.stages@[k]),
                forall|k: int, kind: ResourceKind, id: int|
                    0 <= k < count ==> (#[trigger] self.stages@[k].copies(kind, id))
                        == before[k].copies(kind, id),
            decreases count - i,
        {
            proof {
                io.view_has_the_shape();
                old(io).view_has_the_shape();
                assert(before[i as int].takes(old(io).length(), old(io)@.len()));
            }
            let ghost between = io@;
            let ghost stages = self.stages@;
            self.stages[i].process(io);
            proof {
                assert(before.take(i + 1).drop_last() =~= before.take(i as int));
                assert(before.take(i + 1).last() == before[i as int]);
                assert(self.stages@ =~= stages.update(i as int, self.stages@[i as int]));
                assert(self.stages@.take(i + 1).drop_last() =~= stages.take(i as int));
                assert(before.take(i + 1).last().plays(
                    between,
                    io@,
                    self.stages@.take(i + 1).last(),
                ));
            }
            i = i + 1;
        }
        proof {
            assert(before.take(count as int) =~= before);
            assert(self.stages@.take(count as int) =~= self.stages@);
            assert forall|kind: ResourceKind, id: int| #[trigger]
                self.copies(kind, id) == old(self).copies(kind, id) by {
                lemma_same_copies(before, self.stages@, kind, id);
            }
        }
    }

    /// Whether a block may have been put together like this: `wet` is what the stages made of
    /// `input`, or `input` itself if they did not run; `dry` is the delayed input, if it was
    /// captured; `mixed` is the one, the other, or the crossfade between the wet side, clamped to
    /// the ceiling, and the dry one; `mix` is where the crossfade stands afterwards, and `after`
    /// are the stages then.
    pub open spec fn mixes(
        &self,
        cc: CrossCutting,
        input: Seq<Seq<Sample>>,
        wet: Seq<Seq<Sample>>,
        dry: Seq<Seq<Sample>>,
        mixed: Seq<Seq<Sample>>,
        mix: Sample,
        after: Seq<ChainStage<A>>,
    ) -> bool {
        let shape = BlockShape::of(cc.started, cc.blend.mix, self.global_bypass);
        &&& if shape.wet {
            stages_play(self.stages@, after, input, wet)
        } else {
            wet == input && after == self.stages@
        }
        &&& shape.dry ==> cc.delays(input, saturated(total_latency(self.stages@)) as nat, dry)
        &&& if !shape.dry {
            mixed == wet && mix == shape.mix
        } else if !shape.wet {
            mixed == dry && mix == shape.mix
        } else {
            exists|end: Sample|
                {
                    &&& #[trigger] block_blends(
                        self.math,
                        BypassBlend {
                            mix: shape.mix,
                            target: shape.target,
                            coefficient: cc.blend.coefficient,
                        },
                        limited_block(wet, self.output_ceiling_linear),
                        dry,
                        mixed,
                        end,
                    )
                    &&& snaps(self.math, end, shape.target, cc.blend.coefficient, mix)
                }
        }
    }

    /// What a prepared chain makes of a block, with `mix` where the crossfade stands afterwards and
    /// `faults` the fault count and `after` the stages then.
    pub open spec fn renders(
        &self,
        cc: CrossCutting,
        input: Seq<Seq<Sample>>,
        frames: nat,
        output: Seq<Seq<Sample>>,
        mix: Sample,
        faults: u64,
        after: Seq<ChainStage<A>>,
    ) -> bool {
        exists|wet: Seq<Seq<Sample>>, dry: Seq<Seq<Sample>>, mixed: Seq<Seq<Sample>>|
            {
                &&& #[trigger] self.mixes(cc, input, wet, dry, mixed, mix, after)
                &&& output == contained(
                    mixed,
                    frames,
                    self.output_ceiling_linear,
                    !BlockShape::of(cc.started, cc.blend.mix, self.global_bypass).dry,
                )
                &&& faults == counted(self.fault_count, !all_finite(mixed))
            }
    }

    /// Whether every resource is held as often in `after` as here.
    pub open spec fn holds_the_same(&self, after: Chain<A>) -> bool {
        forall|kind: ResourceKind, id: int| #[trigger]
            after.copies(kind, id) == self.copies(kind, id)
    }

    /// Whether `after` differs from this chain in the state of its stages at most: the stages
    /// themselves are the same ones.
    pub open spec fn only_stages_change(&self, after: Chain<A>) -> bool {
        &&& after == (Chain { stages: after.stages, ..*self })
        &&& all_stay(self.stages@, after.stages@)
    }

    /// What processing a block comes to.
    pub open spec fn processes(
        &self,
        input: Seq<Seq<Sample>>,
        frames: nat,
        output: Seq<Seq<Sample>>,
        after: Chain<A>,
    ) -> bool {
        &&& all_stay(self.stages@, after.stages@)
        &&& self.holds_the_same(after)
        &&& after.context() == self.context()
        &&& after.ids == self.ids
        &&& after.math == self.math
        &&& after.global_bypass == self.global_bypass
        &&& after.output_ceiling_linear == self.output_ceiling_linear
        &&& match (self.cross_cutting, after.cross_cutting) {
            (None, None) => {
                &&& after.fault_count == self.fault_count
                &&& if self.global_bypass {
                    output == input && after.stages@ == self.stages@
                } else {
                    stages_play(self.stages@, after.stages@, input, output)
                }
            },
            (Some(cc), Some(left)) => {
                let shape = BlockShape::of(cc.started, cc.blend.mix, self.global_bypass);
                &&& left.started
                &&& left.blend.target == shape.target
                &&& left.blend.coefficient == cc.blend.coefficient
                &&& self.renders(
                    cc,
                    input,
                    frames,
                    output,
                    left.blend.mix,
                    after.fault_count,
                    after.stages@,
                )
                &&& if total_latency(self.stages@) == 0 && !shape.dry {
                    left.delay_lines@ == cc.delay_lines@
                } else {
                    cc.fed(input, left.delay_lines@)
                }
            },
            _ => false,
        }
    }

    /// What a reset comes to.
    pub open spec fn resets_to(&self, after: Chain<A>) -> bool {
        &&& self.only_stages_change(after)
        &&& same_pens(self.stages@, after.stages@)
        &&& self.holds_the_same(after)
        &&& forall|i: int|
            0 <= i < self.stages@.len() ==> self.stages@[i].resets_to(#[trigger] after.stages@[i])
    }

    /// What a preparation comes to: only what the chain keeps across blocks is set up anew.
    pub open spec fn prepares_to(&self, ctx: PrepareContext, after: Chain<A>) -> bool {
        &&& after.cross_cutting matches Some(cc) && cc.fresh(self.math, self.stages@, ctx)
        &&& after == (Chain { cross_cutting: after.cross_cutting, ..*self })
    }

    /// What a parameter update comes to.
    pub open spec fn applies(&self, change: ParamChange, after: Chain<A>) -> bool {
        &&& all_stay(self.stages@, after.stages@)
        &&& same_pens(self.stages@, after.stages@)
        &&& self.holds_the_same(after)
        &&& if change.id == self.ids.bypass {
            after == (Chain { global_bypass: change.on(), ..*self })
        } else if change.id == self.ids.output_ceiling_db {
            exists|linear: Sample|
                #![trigger linear.is_ceiling()]
                call_ensures(A::db_to_linear, (&self.math, change.value), linear) && after == (
                Chain {
                    output_ceiling_linear: if linear.is_ceiling() {
                        linear
                    } else {
                        self.output_ceiling_linear
                    },
                    ..*self
                })
        } else {
            &&& self.only_stages_change(after)
            &&& forall|i: int|
                0 <= i < self.stages@.len() ==> self.stages@[i].applies(
                    change,
                    #[trigger] after.stages@[i],
                )
        }
    }

    /// What offering a resource comes to: the first stage that welcomes it takes it, or `left` is
    /// the resource and nothing has changed.
    pub open spec fn is_offered(
        &self,
        resource: Resource,
        after: Chain<A>,
        left: Option<Resource>,
    ) -> bool {
        &&& self.only_stages_change(after)
        &&& if self.welcomes(resource.belongs_to()) {
            left is None && takes_it(self.stages@, after.stages@, resource)
        } else {
            left == Some(resource) && after.stages@ == self.stages@
        }
        &&& forall|kind: ResourceKind, id: int| #[trigger]
            after.copies(kind, id) + copies_offered(left, kind, id) == self.copies(kind, id)
                + copies_of(resource, kind, id)
    }

    /// What unloading comes to: only stages that hold this kind, with nothing parked, begin to
    /// empty.
    pub open spec fn unloads_to(&self, kind: ResourceKind, after: Chain<A>) -> bool {
        &&& self.only_stages_change(after)
        &&& self.holds_the_same(after)
        &&& forall|i: int|
            0 <= i < self.stages@.len() ==> if self.stages@[i].welcomes(kind) {
                self.stages@[i].empties_to(#[trigger] after.stages@[i])
            } else {
                after.stages@[i] == self.stages@[i]
            }
    }

    /// What a round of retirements comes to: whatever a stage no longer holds has been sent back.
    pub open spec fn retires_to(
        &self,
        after: Chain<A>,
        sent_before: Seq<Resource>,
        sent_after: Seq<Resource>,
    ) -> bool {
        &&& self.only_stages_change(after)
        &&& sends_back(self.stages@, after.stages@, sent_before, sent_after)
        &&& forall|kind: ResourceKind, id: int| #[trigger]
            after.copies(kind, id) + copies_among(sent_after, kind, id) == self.copies(kind, id)
                + copies_among(sent_before, kind, id)
    }

    /// Processes one block in place.
    ///
    /// With the bypass off and settled, the block is the stages' output, clamped to the ceiling.
    /// With it on and settled, the stages do not run and the block is the input, late by the delay
    /// the chain reports. In between it is the crossfade of the two. A block with a sample that is
    /// not a finite number leaves as silence. An unprepared chain runs its stages, or does nothing
    /// if it is bypassed.
    pub fn process(&mut self, io: &mut StageIo)
        requires
            old(self).wf(),
            old(io).wf(),
            old(self).takes(old(io).length(), old(io)@.len()),
        ensures
            final(self).wf(),
            final(io).shape() == old(io).shape(),
            old(self).processes(old(io)@, old(io).length(), final(io)@, *final(self)),
    {
        broadcast use StageIo::view_has_the_shape;

        let latency: usize = self.latency_samples() as usize;
        match self.cross_cutting.take() {
            None => {
                if !self.global_bypass {
                    self.run_stages(io);
                }
            },
            Some(cross_cutting) => {
                let mut cc: CrossCutting = cross_cutting;
                let ghost input = io@;
                let ghost frames = io.length();
                let ceiling: Sample = self.output_ceiling_linear;
                let shape: BlockShape = BlockShape::compute(
                    cc.started,
                    cc.blend.mix,
                    self.global_bypass,
                );
                cc.started = true;
                cc.blend.mix = shape.mix;
                cc.blend.target = shape.target;
                cc.capture_dry(io, latency, shape.dry);
                if shape.wet {
                    assert(all_take(self.stages@, io.length(), io@.len()));
                    self.run_stages(io);
                }
                let ghost ran = *self;
                let ghost wet = io@;
                let ghost dry = cc.dry@;
                if shape.dry {
                    if shape.wet {
                        clamp_block(io, ceiling);
                        assert(io@ == limited_block(wet, ceiling));
                        cc.blend.run(&self.math, io, &mut cc.dry);
                        let end: Sample = cc.blend.mix;
                        let near: bool = self.math.within_step(
                            end,
                            shape.target,
                            cc.blend.coefficient,
                        );
                        if near {
                            cc.blend.mix = shape.target;
                        }
                        assert(snaps(
                            self.math,
                            end,
                            shape.target,
                            cc.blend.coefficient,
                            cc.blend.mix,
                        ));
                    }
                    io.copy_from(&cc.dry);
                }
                let ghost mixed = io@;
                scan_and_clamp(io, ceiling, !shape.dry, &mut self.fault_count);
                proof {
                    if shape.dry {
                        assert(mixed =~= cc.dry@);
                    }
                    assert(old(self).mixes(
                        old(self).cross_cutting->0,
                        input,
                        wet,
                        dry,
                        mixed,
                        cc.blend.mix,
                        self.stages@,
                    ));
                    staying_keeps_all_room(
                        old(self).stages@,
                        self.stages@,
                        cc.prepared_for.max_frames() as nat,
                        cc.prepared_for.channels(),
                    );
                }
                self.cross_cutting = Some(cc);
                assert forall|kind: ResourceKind, id: int| #[trigger]
                    self.copies(kind, id) == old(self).copies(kind, id) by {
                    assert(ran.copies(kind, id) == old(self).copies(kind, id));
                }
            },
        }
    }

    /// Clears every stage's internal state.
    pub fn reset(&mut self)
        requires
            old(self).wf(),
        ensures
            final(self).wf(),
            old(self).resets_to(*final(self)),
    {
        let ghost before = self.stages@;
        let count: usize = self.stages.len();
        let mut i: usize = 0;
        while i < count
            invariant
                i <= count,
                count == self.stages@.len(),
                before == old(self).stages@,
                before.len() == count,
                all_wf(self.stages@),
                *self == (Chain { stages: self.stages, ..*old(self) }),
                forall|k: int| i <= k < count ==> #[trigger] self.stages@[k] == before[k],
                forall|k: int| 0 <= k < count ==> before[k].stays(#[trigger] self.stages@[k]),
                forall|k: int|
                    0 <= k < i ==> before[k].resets_to(#[trigger] self.stages@[k]),
                forall|k: int|
                    0 <= k < count ==> (#[trigger] self.stages@[k]).has_parked()
                        == before[k].has_parked(),
                forall|k: int, kind: ResourceKind, id: int|
                    0 <= k < count ==> (#[trigger] self.stages@[k].copies(kind, id))
                        == before[k].copies(kind, id),
            decreases count - i,
        {
            let ghost stages = self.stages@;
            self.stages[i].reset();
            assert(self.stages@ =~= stages.update(i as int, self.stages@[i as int]));
            i = i + 1;
        }
        proof {
            assert forall|kind: ResourceKind, id: int| #[trigger]
                self.copies(kind, id) == old(self).copies(kind, id) by {
                lemma_same_copies(before, self.stages@, kind, id);
            }
            lemma_still_ready(*old(self), *self);
        }
    }

    /// Applies a parameter update. The chain's own two parameters are applied here and reach no
    /// stage; any other goes to every stage, and each ignores what it does not own.
    pub fn apply(&mut self, change: ParamChange)
        requires
            old(self).wf(),
        ensures
            final(self).wf(),
            old(self).applies(change, *final(self)),
    {
        if change.id == self.ids.bypass {
            self.set_global_bypass(change.switches_on());
            return;
        }
        if change.id == self.ids.output_ceiling_db {
            self.set_output_ceiling_db(change.value);
            return;
        }
        let ghost before = self.stages@;
        let count: usize = self.stages.len();
        let mut i: usize = 0;
        while i < count
            invariant
                i <= count,
                count == self.stages@.len(),
                before == old(self).stages@,
                before.len() == count,
                all_wf(self.stages@),
                *self == (Chain { stages: self.stages, ..*old(self) }),
                forall|k: int| i <= k < count ==> #[trigger] self.stages@[k] == before[k],
                forall|k: int| 0 <= k < count ==> before[k].stays(#[trigger] self.stages@[k]),
                forall|k: int|
                    0 <= k < i ==> before[k].applies(change, #[trigger] self.stages@[k]),
                forall|k: int|
                    0 <= k < count ==> (#[trigger] self.stages@[k]).has_parked()
                        == before[k].has_parked(),
                forall|k: int, kind: ResourceKind, id: int|
                    0 <= k < count ==> (#[trigger] self.stages@[k].copies(kind, id))
                        == before[k].copies(kind, id),
            decreases count - i,
        {
            let ghost stages = self.stages@;
            self.stages[i].apply(change);
            assert(self.stages@ =~= stages.update(i as int, self.stages@[i as int]));
            i = i + 1;
        }
        proof {
            assert forall|kind: ResourceKind, id: int| #[trigger]
                self.copies(kind, id) == old(self).copies(kind, id) by {
                lemma_same_copies(before, self.stages@, kind, id);
            }
            lemma_still_ready(*old(self), *self);
        }
    }

    /// Offers a resource to the stages in order, until one takes it. One that no stage takes is
    /// left with the caller, who must not drop it.
    pub fn offer(&mut self, offer: &mut Option<Resource>)
        requires
            old(self).wf(),
        ensures
            final(self).wf(),
            *old(offer) matches Some(resource) ==> old(self).is_offered(
                resource,
                *final(self),
                *final(offer),
            ),
            *old(offer) is None ==> *final(offer) == None::<Resource> && final(self).stages@
                == old(self).stages@ && old(self).only_stages_change(*final(self)),
    {
        let ghost before = self.stages@;
        let count: usize = self.stages.len();
        let mut i: usize = 0;
        while i < count
            invariant
                i <= count,
                count == self.stages@.len(),
                before == old(self).stages@,
                *self == (Chain { stages: self.stages, ..*old(self) }),
                self.stages@ == before,
                old(self).wf(),
                all_wf(before),
                *offer == *old(offer),
                *offer matches Some(resource) ==> forall|k: int|
                    0 <= k < i ==> !(#[trigger] before[k]).welcomes(resource.belongs_to()),
                i > 0 ==> *offer is Some,
            decreases count - i,
        {
            self.stages[i].accept_resource(offer);
            proof {
                assert(self.stages@ =~= before.update(i as int, self.stages@[i as int]));
            }
            if offer.is_none() {
                proof {
                    assert forall|kind: ResourceKind, id: int| #[trigger]
                        self.copies(kind, id) + copies_offered(*offer, kind, id)
                            == copies_held(before, kind, id) + copies_offered(
                        *old(offer),
                        kind,
                        id,
                    ) by {
                        assert(self.stages@[i as int].copies(kind, id) + copies_offered(
                            *offer,
                            kind,
                            id,
                        ) == before[i as int].copies(kind, id) + copies_offered(
                            *old(offer),
                            kind,
                            id,
                        ));
                        lemma_one_stage_changes(
                            before,
                            i as int,
                            self.stages@[i as int],
                            kind,
                            id,
                        );
                    }
                    assert(all_stay(before, self.stages@)) by {
                        assert forall|k: int| 0 <= k < count implies before[k].stays(
                            #[trigger] self.stages@[k],
                        ) by {
                            lemma_stays_itself(before[k]);
                        }
                    }
                    lemma_still_ready(*old(self), *self);
                    if *old(offer) is Some {
                        assert(before[i as int].welcomes(old(offer)->0.belongs_to()));
                    } else {
                        assert(self.stages@ =~= before);
                    }
                }
                return;
            }
            assert(self.stages@ =~= before);
            i = i + 1;
        }
        proof {
            assert(all_stay(before, self.stages@)) by {
                assert forall|k: int| 0 <= k < count implies before[k].stays(
                    #[trigger] self.stages@[k],
                ) by {
                    lemma_stays_itself(before[k]);
                }
            }
            lemma_still_ready(*old(self), *self);
        }
    }

    /// Whether a stage would take a resource of this kind.
    pub open spec fn welcomes(&self, kind: ResourceKind) -> bool {
        exists|i: int| 0 <= i < self.stages@.len() && (#[trigger] self.stages@[i]).welcomes(kind)
    }

    /// Begins to empty every stage that holds this kind of resource and has nothing parked.
    pub fn unload(&mut self, kind: ResourceKind)
        requires
            old(self).wf(),
        ensures
            final(self).wf(),
            old(self).unloads_to(kind, *final(self)),
    {
        let ghost before = self.stages@;
        let count: usize = self.stages.len();
        let mut i: usize = 0;
        while i < count
            invariant
                i <= count,
                count == self.stages@.len(),
                before == old(self).stages@,
                before.len() == count,
                all_wf(self.stages@),
                *self == (Chain { stages: self.stages, ..*old(self) }),
                forall|k: int| i <= k < count ==> #[trigger] self.stages@[k] == before[k],
                forall|k: int| 0 <= k < i ==> before[k].stays(#[trigger] self.stages@[k]),
                forall|k: int|
                    0 <= k < i ==> if before[k].welcomes(kind) {
                        before[k].empties_to(#[trigger] self.stages@[k])
                    } else {
                        self.stages@[k] == before[k]
                    },
                forall|k: int, kd: ResourceKind, id: int|
                    0 <= k < count ==> (#[trigger] self.stages@[k].copies(kd, id))
                        == before[k].copies(kd, id),
            decreases count - i,
        {
            let ghost stages = self.stages@;
            self.stages[i].unload_resource(kind);
            assert(self.stages@ =~= stages.update(i as int, self.stages@[i as int]));
            i = i + 1;
        }
        proof {
            assert forall|k: ResourceKind, id: int| #[trigger]
                self.copies(k, id) == old(self).copies(k, id) by {
                lemma_same_copies(before, self.stages@, k, id);
            }
            lemma_still_ready(*old(self), *self);
        }
    }

    /// Gives every stage the chance to send back what it has parked.
    pub fn collect_retired(&mut self, out: &mut RetireSink<'_>)
        requires
            old(self).wf(),
        ensures
            final(self).wf(),
            *final(final(out).ring) == *final(old(out).ring),
            final(out).ring.ring() == old(out).ring.ring(),
            old(self).retires_to(
                *final(self),
                old(out).ring.sent(),
                final(out).ring.sent(),
            ),
            final(out).rejected == counted_up(
                old(out).rejected,
                parked_count(final(self).stages@),
            ),
            old(out).ring.known_free() >= parked_count(old(self).stages@) ==> none_parked(
                final(self).stages@,
            ),
    {
        let ghost before = self.stages@;
        let count: usize = self.stages.len();
        let mut i: usize = 0;
        while i < count
            invariant
                i <= count,
                count == self.stages@.len(),
                before == old(self).stages@,
                before.len() == count,
                all_wf(self.stages@),
                *self == (Chain { stages: self.stages, ..*old(self) }),
                *final(out.ring) == *final(old(out).ring),
                out.ring.ring() == old(out).ring.ring(),
                forall|k: int| i <= k < count ==> #[trigger] self.stages@[k] == before[k],
                forall|k: int| 0 <= k < i ==> before[k].stays(#[trigger] self.stages@[k]),
                sends_back(
                    before.take(i as int),
                    self.stages@.take(i as int),
                    old(out).ring.sent(),
                    out.ring.sent(),
                ),
                out.ring.known_free() + parked_count(before.take(i as int))
                    >= old(out).ring.known_free(),
                old(out).ring.known_free() >= parked_count(before) ==> forall|k: int|
                    0 <= k < i ==> !(#[trigger] self.stages@[k]).has_parked(),
                out.rejected == counted_up(
                    old(out).rejected,
                    parked_count(self.stages@.take(i as int)),
                ),
                forall|kind: ResourceKind, id: int| #[trigger]
                    copies_held(self.stages@, kind, id) + copies_among(out.ring.sent(), kind, id)
                        == copies_held(before, kind, id) + copies_among(
                        old(out).ring.sent(),
                        kind,
                        id,
                    ),
            decreases count - i,
        {
            let ghost stages = self.stages@;
            let ghost sent = out.ring.sent();
            self.stages[i].collect_retired(out);
            proof {
                let after = self.stages@[i as int];
                assert(self.stages@ =~= stages.update(i as int, after));
                assert(before.take(i + 1).drop_last() =~= before.take(i as int));
                assert(self.stages@.take(i + 1).drop_last() =~= stages.take(i as int));
                lemma_parked_so_far(before, i + 1);
                if out.ring.sent() != sent {
                    assert(out.ring.sent().drop_last() =~= sent);
                }
                assert forall|kind: ResourceKind, id: int| #[trigger]
                    copies_held(self.stages@, kind, id) + copies_among(out.ring.sent(), kind, id)
                        == copies_held(before, kind, id) + copies_among(
                    old(out).ring.sent(),
                    kind,
                    id,
                ) by {
                    lemma_one_stage_changes(stages, i as int, after, kind, id);
                    assert(after.copies(kind, id) + copies_among(out.ring.sent(), kind, id)
                        == stages[i as int].copies(kind, id) + copies_among(sent, kind, id));
                    assert(copies_held(stages, kind, id) + copies_among(sent, kind, id)
                        == copies_held(before, kind, id) + copies_among(
                        old(out).ring.sent(),
                        kind,
                        id,
                    ));
                }
            }
            i = i + 1;
        }
        proof {
            assert(before.take(count as int) =~= before);
            assert(self.stages@.take(count as int) =~= self.stages@);
            lemma_still_ready(*old(self), *self);
            assert forall|kind: ResourceKind, id: int| #[trigger]
                self.copies(kind, id) + copies_among(out.ring.sent(), kind, id) == copies_held(
                before,
                kind,
                id,
            ) + copies_among(old(out).ring.sent(), kind, id) by {
                assert(copies_held(self.stages@, kind, id) + copies_among(
                    out.ring.sent(),
                    kind,
                    id,
                ) == copies_held(before, kind, id) + copies_among(
                    old(out).ring.sent(),
                    kind,
                    id,
                ));
            }
        }
    }

    /// Whether a resource is parked in any stage, waiting to be handed back.
    pub fn holds_parked(&self) -> (parked: bool)
        ensures
            parked == !none_parked(self.stages@),
    {
        let mut i: usize = 0;
        while i < self.stages.len()
            invariant
                i <= self.stages@.len(),
                forall|k: int| 0 <= k < i ==> !(#[trigger] self.stages@[k]).has_parked(),
            decreases self.stages@.len() - i,
        {
            if self.stages[i].holds_parked() {
                assert(self.stages@[i as int].has_parked());
                return true;
            }
            i = i + 1;
        }
        false
    }

    /// What the chain reports: every stage's readings in order, then its own fault count.
    pub open spec fn readings(&self) -> Seq<TelemetryEntry> {
        all_readings(self.stages@).push(
            TelemetryEntry {
                id: self.ids.fault_count,
                value: Sample::nearest_to(self.fault_count as nat),
            },
        )
    }

    /// Writes the chain's present readings into `out`.
    pub fn telemetry(&self, out: &mut TelemetrySink<'_>)
        requires
            old(out).wf(),
        ensures
            final(out).wf(),
            final(out).room() == old(out).room(),
            final(final(out).buffer)@ == final(old(out).buffer)@,
            final(out)@ == newest(old(out)@ + self.readings(), old(out).room()),
    {
        let ghost start = out@;
        let ghost room = out.room();
        let mut i: usize = 0;
        assert(newest(start + all_readings(self.stages@.take(0)), room) =~= newest(start, room));
        proof {
            out.holds_no_more_than_its_room();
        }
        while i < self.stages.len()
            invariant
                i <= self.stages@.len(),
                out.wf(),
                out.room() == room,
                room == old(out).room(),
                final(out.buffer)@ == final(old(out).buffer)@,
                start == old(out)@,
                out@ == newest(start + all_readings(self.stages@.take(i as int)), room),
            decreases self.stages@.len() - i,
        {
            self.stages[i].telemetry(out);
            proof {
                let done = self.stages@.take(i as int);
                let more = self.stages@[i as int].readings();
                assert(self.stages@.take(i + 1).drop_last() =~= done);
                newest_of_newest(start + all_readings(done), more, room);
                assert((start + all_readings(done)) + more =~= start + (all_readings(done)
                    + more));
            }
            i = i + 1;
        }
        out.push(
            TelemetryEntry {
                id: self.ids.fault_count,
                value: Sample::from_count(self.fault_count),
            },
        );
        proof {
            assert(self.stages@.take(i as int) =~= self.stages@);
            let own = TelemetryEntry {
                id: self.ids.fault_count,
                value: Sample::nearest_to(self.fault_count as nat),
            };
            let listed = start + all_readings(self.stages@);
            newest_of_newest(listed, seq![own], room);
            assert(newest(listed, room) + seq![own] =~= newest(listed, room).push(own));
            assert(listed + seq![own] =~= start + self.readings());
        }
    }
}

/// Every stage's readings, in the order of the stages.
pub open spec fn all_readings<A: SampleMath>(stages: Seq<ChainStage<A>>) -> Seq<TelemetryEntry>
    decreases stages.len(),
{
    if stages.len() == 0 {
        Seq::empty()
    } else {
        all_readings(stages.drop_last()) + stages.last().readings()
    }
}

/// Whether nothing is parked in any of the stages.
pub open spec fn none_parked<A: SampleMath>(stages: Seq<ChainStage<A>>) -> bool {
    forall|i: int| 0 <= i < stages.len() ==> !(#[trigger] stages[i]).has_parked()
}

/// How many of the stages have something parked.
pub open spec fn parked_count<A: SampleMath>(stages: Seq<ChainStage<A>>) -> nat
    decreases stages.len(),
{
    if stages.len() == 0 {
        0
    } else {
        parked_count(stages.drop_last()) + if stages.last().has_parked() {
            1nat
        } else {
            0
        }
    }
}

/// Whether something is parked in the same stages as before.
pub open spec fn same_pens<A: SampleMath>(
    before: Seq<ChainStage<A>>,
    after: Seq<ChainStage<A>>,
) -> bool {
    &&& before.len() == after.len()
    &&& forall|i: int|
        0 <= i < before.len() ==> (#[trigger] after[i]).has_parked() == before[i].has_parked()
}

/// What a round of retirements does: each stage in turn sends back what it has parked, or keeps it.
pub open spec fn sends_back<A: SampleMath>(
    before: Seq<ChainStage<A>>,
    after: Seq<ChainStage<A>>,
    sent_before: Seq<Resource>,
    sent_after: Seq<Resource>,
) -> bool
    decreases before.len(),
{
    if before.len() == 0 {
        after.len() == 0 && sent_after == sent_before
    } else {
        &&& after.len() == before.len()
        &&& {
            ||| {
                &&& after.last() == before.last()
                &&& sends_back(before.drop_last(), after.drop_last(), sent_before, sent_after)
            }
            ||| {
                &&& before.last().clears_to(after.last())
                &&& before.last().parked() is Some
                &&& sent_after.len() > 0
                &&& sent_after.last() == before.last().parked()->0
                &&& sends_back(
                    before.drop_last(),
                    after.drop_last(),
                    sent_before,
                    sent_after.drop_last(),
                )
            }
        }
    }
}

/// Whether the first stage that welcomes a resource has taken it, and no other has changed.
pub open spec fn takes_it<A: SampleMath>(
    before: Seq<ChainStage<A>>,
    after: Seq<ChainStage<A>>,
    resource: Resource,
) -> bool {
    exists|at: int|
        {
            &&& 0 <= at < before.len()
            &&& (#[trigger] before[at]).welcomes(resource.belongs_to())
            &&& forall|i: int|
                0 <= i < at ==> !(#[trigger] before[i]).welcomes(resource.belongs_to())
            &&& before[at].accepts(resource, after[at])
            &&& after == before.update(at, after[at])
        }
}

/// Nothing is parked exactly if no stage has anything parked.
pub proof fn no_count_means_none_parked<A: SampleMath>(stages: Seq<ChainStage<A>>)
    ensures
        parked_count(stages) == 0 <==> none_parked(stages),
    decreases stages.len(),
{
    if stages.len() > 0 {
        let rest = stages.drop_last();
        no_count_means_none_parked(rest);
        if none_parked(stages) {
            assert forall|i: int| 0 <= i < rest.len() implies !(
            #[trigger] rest[i]).has_parked() by {
                assert(!stages[i].has_parked());
            }
        }
        if none_parked(rest) && !stages.last().has_parked() {
            assert forall|i: int| 0 <= i < stages.len() implies !(
            #[trigger] stages[i]).has_parked() by {
                if i < rest.len() {
                    assert(!rest[i].has_parked());
                }
            }
        }
    }
}

proof fn lemma_parked_so_far<A: SampleMath>(stages: Seq<ChainStage<A>>, k: int)
    requires
        0 <= k <= stages.len(),
    ensures
        parked_count(stages.take(k)) <= parked_count(stages),
    decreases stages.len(),
{
    if k == stages.len() {
        assert(stages.take(k) =~= stages);
    } else {
        lemma_parked_so_far(stages.drop_last(), k);
        assert(stages.drop_last().take(k) =~= stages.take(k));
    }
}

proof fn lemma_stays_itself<A: SampleMath>(stage: ChainStage<A>)
    ensures
        stage.stays(stage),
{
}

proof fn lemma_still_ready<A: SampleMath>(before: Chain<A>, after: Chain<A>)
    requires
        before.wf(),
        all_wf(after.stages@),
        all_stay(before.stages@, after.stages@),
        after.cross_cutting == before.cross_cutting,
        after.output_ceiling_linear == before.output_ceiling_linear,
    ensures
        after.wf(),
{
    if let Some(cc) = before.cross_cutting {
        staying_keeps_all_room(
            before.stages@,
            after.stages@,
            cc.prepared_for.max_frames() as nat,
            cc.prepared_for.channels(),
        );
    }
}

/// `mix` is where a crossfade that has come to `end` is left: at its target if it is within one
/// step of it, else where it is.
pub open spec fn snaps<A: SampleMath>(
    math: A,
    end: Sample,
    target: Sample,
    coefficient: Sample,
    mix: Sample,
) -> bool {
    exists|near: bool|
        #![trigger call_ensures(A::within_step, (&math, end, target, coefficient), near)]
        call_ensures(A::within_step, (&math, end, target, coefficient), near) && mix == (if near {
            target
        } else {
            end
        })
}

proof fn staying_keeps_all_room<A: SampleMath>(
    before: Seq<ChainStage<A>>,
    after: Seq<ChainStage<A>>,
    max_frames: nat,
    channels: nat,
)
    requires
        all_stay(before, after),
        forall|frames: nat|
            frames <= max_frames ==> #[trigger] all_take(before, frames, channels),
    ensures
        forall|frames: nat|
            frames <= max_frames ==> #[trigger] all_take(after, frames, channels),
{
    assert forall|frames: nat| frames <= max_frames implies #[trigger] all_take(
        after,
        frames,
        channels,
    ) by {
        staying_keeps_room(before, after, frames, channels);
    }
}

/// The bypass and the ceiling can be set in either order: what comes of the one after the other
/// also comes of the other after the one.
pub proof fn the_order_of_the_settings_does_not_matter<A: SampleMath>(
    chain: Chain<A>,
    bypass: ParamChange,
    between: Chain<A>,
    ceiling: ParamChange,
    after: Chain<A>,
)
    requires
        chain.ids.bypass != chain.ids.output_ceiling_db,
        bypass.id == chain.ids.bypass,
        ceiling.id == chain.ids.output_ceiling_db,
        chain.applies(bypass, between),
        between.applies(ceiling, after),
    ensures
        exists|other: Chain<A>| #[trigger]
            chain.applies(ceiling, other) && other.applies(bypass, after),
{
    let other = Chain { output_ceiling_linear: after.output_ceiling_linear, ..chain };
    assert(chain.applies(ceiling, other));
    assert(other.applies(bypass, after));
}

/// The chain can be prepared before or after the bypass or the ceiling is set: what comes of the
/// one order also comes of the other. A preparation loses no setting, and changes neither the delay
/// nor the tail nor the fault count.
pub proof fn a_preparation_loses_no_setting<A: SampleMath>(
    chain: Chain<A>,
    ctx: PrepareContext,
    prepared: Chain<A>,
    setting: ParamChange,
    after: Chain<A>,
)
    requires
        setting.id == chain.ids.bypass || setting.id == chain.ids.output_ceiling_db,
        chain.prepares_to(ctx, prepared),
        prepared.applies(setting, after),
    ensures
        exists|set: Chain<A>| #[trigger]
            chain.applies(setting, set) && set.prepares_to(ctx, after),
        after.context() == Some(ctx),
        after.stages == chain.stages,
        after.fault_count == chain.fault_count,
{
    let set = Chain { cross_cutting: chain.cross_cutting, ..after };
    assert(chain.applies(setting, set));
    assert(set.prepares_to(ctx, after));
}

/// A setting that was made before a preparation is in force after it, as if it had been made
/// afterwards.
pub proof fn a_setting_survives_a_preparation<A: SampleMath>(
    chain: Chain<A>,
    setting: ParamChange,
    set: Chain<A>,
    ctx: PrepareContext,
    after: Chain<A>,
)
    requires
        setting.id == chain.ids.bypass || setting.id == chain.ids.output_ceiling_db,
        chain.applies(setting, set),
        set.prepares_to(ctx, after),
    ensures
        exists|prepared: Chain<A>| #[trigger]
            chain.prepares_to(ctx, prepared) && prepared.applies(setting, after),
{
    let prepared = Chain { cross_cutting: after.cross_cutting, ..chain };
    assert(chain.prepares_to(ctx, prepared));
    assert(prepared.applies(setting, after));
}

/// What a prepared chain put a block together from: the stages' side, the delayed side, and the mix
/// of the two.
proof fn lemma_put_together<A: SampleMath>(
    chain: Chain<A>,
    input: Seq<Seq<Sample>>,
    frames: nat,
    output: Seq<Seq<Sample>>,
    after: Chain<A>,
) -> (parts: (Seq<Seq<Sample>>, Seq<Seq<Sample>>, Seq<Seq<Sample>>))
    requires
        chain.context() is Some,
        chain.processes(input, frames, output, after),
    ensures
        ({
            let cc = chain.cross_cutting->0;
            let mix = after.cross_cutting->0.blend.mix;
            let dry = BlockShape::of(cc.started, cc.blend.mix, chain.global_bypass).dry;
            &&& chain.mixes(cc, input, parts.0, parts.1, parts.2, mix, after.stages@)
            &&& output == contained(parts.2, frames, chain.output_ceiling_linear, !dry)
            &&& after.fault_count == counted(chain.fault_count, !all_finite(parts.2))
        }),
{
    let cc = chain.cross_cutting->0;
    let mix = after.cross_cutting->0.blend.mix;
    let shape = BlockShape::of(cc.started, cc.blend.mix, chain.global_bypass);
    choose|wet: Seq<Seq<Sample>>, dry: Seq<Seq<Sample>>, mixed: Seq<Seq<Sample>>|
        {
            &&& #[trigger] chain.mixes(cc, input, wet, dry, mixed, mix, after.stages@)
            &&& output == contained(mixed, frames, chain.output_ceiling_linear, !shape.dry)
            &&& after.fault_count == counted(chain.fault_count, !all_finite(mixed))
        }
}

/// A prepared chain lets no sample out that is not a finite number, whatever its stages do, and
/// while the bypass is off and settled none that exceeds the ceiling. A block that had to be
/// silenced for it is counted.
pub proof fn nothing_harmful_leaves_the_chain<A: SampleMath>(
    chain: Chain<A>,
    input: Seq<Seq<Sample>>,
    frames: nat,
    output: Seq<Seq<Sample>>,
    after: Chain<A>,
)
    requires
        chain.wf(),
        chain.context() is Some,
        chain.processes(input, frames, output, after),
    ensures
        all_finite(output),
        after.fault_count == chain.fault_count || after.fault_count == chain.fault_count + 1,
        after.fault_count != chain.fault_count ==> output == silent_block(output.len(), frames),
        ({
            let cc = chain.cross_cutting->0;
            !BlockShape::of(cc.started, cc.blend.mix, chain.global_bypass).dry
        }) ==> forall|ch: int, i: int|
            0 <= ch < output.len() && 0 <= i < output[ch].len() ==> (
            #[trigger] output[ch][i]).magnitude() <= chain.output_ceiling_linear.magnitude(),
{
    let (wet, dry, mixed) = lemma_put_together(chain, input, frames, output, after);
    let cc = chain.cross_cutting->0;
    let shape = BlockShape::of(cc.started, cc.blend.mix, chain.global_bypass);
    containment_lets_nothing_harmful_out(
        mixed,
        frames,
        chain.output_ceiling_linear,
        !shape.dry,
    );
    assert(output.len() == mixed.len());
}

/// With the bypass on and settled, the block is the input, late by the delay the chain reports: the
/// stages do not run, no ceiling applies, and the bypass stays settled. A delayed block that is not
/// finite leaves as silence.
pub proof fn a_settled_bypass_is_the_delayed_input<A: SampleMath>(
    chain: Chain<A>,
    input: Seq<Seq<Sample>>,
    frames: nat,
    output: Seq<Seq<Sample>>,
    after: Chain<A>,
)
    requires
        chain.cross_cutting matches Some(cc) && (cc.started ==> cc.blend.mix == Sample::one()),
        chain.global_bypass,
        chain.processes(input, frames, output, after),
    ensures
        after.stages@ == chain.stages@,
        after.cross_cutting->0.blend.mix == Sample::one(),
        exists|dry: Seq<Seq<Sample>>|
            {
                &&& #[trigger] chain.cross_cutting->0.delays(
                    input,
                    saturated(total_latency(chain.stages@)) as nat,
                    dry,
                )
                &&& output == if all_finite(dry) {
                    dry
                } else {
                    silent_block(dry.len(), frames)
                }
                &&& after.fault_count == counted(chain.fault_count, !all_finite(dry))
            },
{
    settled_blocks_take_one_side(true);
    let (wet, dry, mixed) = lemma_put_together(chain, input, frames, output, after);
    assert(chain.cross_cutting->0.delays(
        input,
        saturated(total_latency(chain.stages@)) as nat,
        dry,
    ));
}

/// With the bypass on and settled, a finite block passes a chain without latency untouched.
pub proof fn a_settled_bypass_without_latency_is_the_input<A: SampleMath>(
    chain: Chain<A>,
    input: Seq<Seq<Sample>>,
    frames: nat,
    output: Seq<Seq<Sample>>,
    after: Chain<A>,
)
    requires
        chain.cross_cutting matches Some(cc) && {
            &&& cc.started ==> cc.blend.mix == Sample::one()
            &&& forall|ch: int|
                0 <= ch < input.len() ==> (#[trigger] cc.delay_lines@[ch])@.len() >= 1
        },
        chain.global_bypass,
        total_latency(chain.stages@) == 0,
        all_finite(input),
        chain.processes(input, frames, output, after),
    ensures
        output == input,
{
    a_settled_bypass_is_the_delayed_input(chain, input, frames, output, after);
    let cc = chain.cross_cutting->0;
    let dry = choose|dry: Seq<Seq<Sample>>|
        {
            &&& #[trigger] cc.delays(input, saturated(total_latency(chain.stages@)) as nat, dry)
            &&& output == if all_finite(dry) {
                dry
            } else {
                silent_block(dry.len(), frames)
            }
        };
    assert forall|ch: int| 0 <= ch < input.len() implies #[trigger] dry[ch] == input[ch] by {
        assert(cc.delay_lines@[ch]@.len() >= 1);
        assert forall|i: int| 0 <= i < input[ch].len() implies dry[ch][i] == input[ch][i] by {
            assert(dry[ch][i] == delayed(
                cc.delay_lines@[ch]@,
                input[ch],
                reachable(0, cc.delay_lines@[ch]@.len()),
                i,
            ));
        }
        assert(dry[ch] =~= input[ch]);
    }
    assert(dry =~= input);
}

/// With the bypass off and settled, the block is what the stages made of it, clamped to the
/// ceiling, and the bypass stays settled.
pub proof fn without_bypass_the_stages_are_heard<A: SampleMath>(
    chain: Chain<A>,
    input: Seq<Seq<Sample>>,
    frames: nat,
    output: Seq<Seq<Sample>>,
    after: Chain<A>,
)
    requires
        chain.cross_cutting matches Some(cc) && (cc.started ==> cc.blend.mix == Sample::zero()),
        !chain.global_bypass,
        chain.processes(input, frames, output, after),
    ensures
        after.cross_cutting->0.blend.mix == Sample::zero(),
        exists|wet: Seq<Seq<Sample>>|
            {
                &&& #[trigger] stages_play(chain.stages@, after.stages@, input, wet)
                &&& output == contained(wet, frames, chain.output_ceiling_linear, true)
                &&& after.fault_count == counted(chain.fault_count, !all_finite(wet))
            },
{
    settled_blocks_take_one_side(false);
    let (wet, dry, mixed) = lemma_put_together(chain, input, frames, output, after);
    assert(stages_play(chain.stages@, after.stages@, input, wet));
}

} // verus!
