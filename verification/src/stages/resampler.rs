//! Running a processor at another sample rate than the engine's, one fixed chunk at a time.
//!
//! The processor takes chunks of exactly `engine_block` engine-rate frames. The host hands over
//! blocks of any size, so samples queue on both sides of it. The output queue starts out holding
//! one chunk of silence; with that head start it can always serve a block in full, and the delay
//! of the queues is one chunk, whatever the sizes of the blocks.

use std::collections::VecDeque;

use vstd::arithmetic::div_mod::lemma_div_nonincreasing;
use vstd::prelude::*;

use crate::prepare::SampleRate;
use crate::sample::Sample;
use crate::stage::{runs, BoxedStage, Stage};
use crate::stage_io::StageIo;

verus! {

/// What the sample-rate converters of a slot report about themselves.
#[derive(Clone, Copy, Debug, PartialEq, Eq, Structural)]
pub struct ConverterFigures {
    /// Engine-rate frames that one chunk takes in and gives out.
    pub engine_block: usize,
    /// The delay of the converter into the model's rate, in frames at that rate.
    pub into_model_delay: usize,
    /// The delay of the converter back to the engine's rate, in frames at that rate.
    pub out_of_model_delay: usize,
}

/// `frames` at one rate, in frames at another, to the nearest frame.
pub open spec fn converted(frames: nat, to_hz: nat, from_hz: nat) -> nat {
    (2 * frames * to_hz + from_hz) / (2 * from_hz)
}

/// The largest 32-bit value, if `n` is larger than that.
pub open spec fn capped(n: int) -> u32 {
    if n <= u32::MAX {
        n as u32
    } else {
        u32::MAX
    }
}

/// The latency of a converted slot: both converters' delays and one chunk, in engine frames.
pub open spec fn pipeline_latency(figures: ConverterFigures, engine_hz: u32, model_hz: u32) -> u32 {
    capped(
        converted(figures.into_model_delay as nat, engine_hz as nat, model_hz as nat)
            + figures.out_of_model_delay + figures.engine_block,
    )
}

fn saturated(n: u128) -> (capped_n: u32)
    ensures
        capped_n == capped(n as int),
{
    if n <= 0xffff_ffff {
        n as u32
    } else {
        0xffff_ffff
    }
}

/// Computes the latency of a converted slot.
pub fn pipeline_latency_samples(
    figures: ConverterFigures,
    engine_rate: SampleRate,
    model_rate: SampleRate,
) -> (latency: u32)
    ensures
        latency == pipeline_latency(figures, engine_rate.rate(), model_rate.rate()),
{
    let engine_hz: u128 = engine_rate.hz() as u128;
    let model_hz: u128 = model_rate.hz() as u128;
    let delay: u128 = figures.into_model_delay as u128;
    assert(delay * engine_hz <= 0xffff_ffff_ffff_ffff * 0xffff_ffff) by (nonlinear_arith)
        requires
            delay <= 0xffff_ffff_ffff_ffff,
            engine_hz <= 0xffff_ffff,
    ;
    let scaled: u128 = 2 * (delay * engine_hz) + model_hz;
    assert(2 * (delay * engine_hz) == 2 * delay * engine_hz) by (nonlinear_arith);
    let in_engine_frames: u128 = scaled / (2 * model_hz);
    proof {
        lemma_div_nonincreasing(scaled as int, 2 * model_hz as int);
    }
    saturated(
        in_engine_frames + figures.out_of_model_delay as u128 + figures.engine_block as u128,
    )
}

/// How many samples have to be made, in whole chunks, before `frames` frames can be served with
/// `queued` waiting.
pub open spec fn samples_needed(frames: nat, queued: nat, chunk: nat) -> nat
    decreases frames + chunk - queued,
{
    if frames <= queued || chunk == 0 {
        0
    } else {
        chunk + samples_needed(frames, queued + chunk, chunk)
    }
}

/// Whether `made` consists of whole chunks, each of which is what the processor made, one after the
/// other, of the same stretch of `fed`. The processor was `core` then, and is left as `after`.
pub open spec fn made_of(
    core: BoxedStage,
    fed: Seq<Sample>,
    made: Seq<Sample>,
    chunk: nat,
    after: BoxedStage,
) -> bool
    decreases made.len(),
{
    if made.len() == 0 || chunk == 0 {
        made.len() == 0 && after == core
    } else {
        let before = made.len() - chunk;
        &&& before >= 0
        &&& made.len() <= fed.len()
        &&& exists|between: BoxedStage|
            {
                &&& #[trigger] runs(
                    between,
                    fed.subrange(before, made.len() as int),
                    made.subrange(before, made.len() as int),
                    after,
                )
                &&& made_of(core, fed, made.take(before), chunk, between)
            }
    }
}

/// However many chunks a processor runs, it stays the same one and is told nothing.
pub proof fn chunks_do_not_change_the_processor(
    core: BoxedStage,
    fed: Seq<Sample>,
    made: Seq<Sample>,
    chunk: nat,
    after: BoxedStage,
)
    requires
        made_of(core, fed, made, chunk, after),
    ensures
        after.0.identity() == core.0.identity(),
        after.0.told() == core.0.told(),
    decreases made.len(),
{
    if made.len() > 0 && chunk > 0 {
        let before = made.len() - chunk;
        let between = choose|between: BoxedStage|
            {
                &&& #[trigger] runs(
                    between,
                    fed.subrange(before, made.len() as int),
                    made.subrange(before, made.len() as int),
                    after,
                )
                &&& made_of(core, fed, made.take(before), chunk, between)
            };
        chunks_do_not_change_the_processor(core, fed, made.take(before), chunk, between);
    }
}

/// The queues around a processor that runs in fixed chunks.
pub struct SlotResampler {
    engine_block: usize,
    chunk: StageIo,
    waiting: VecDeque<Sample>,
    ready: VecDeque<Sample>,
    latency: u32,
}

impl SlotResampler {
    /// The frames of one chunk.
    pub closed spec fn block(&self) -> nat {
        self.engine_block as nat
    }

    /// What has been handed in and not been processed yet, oldest first.
    pub closed spec fn waiting(&self) -> Seq<Sample> {
        self.waiting@
    }

    /// What has been processed and not been handed out yet, oldest first.
    pub closed spec fn ready(&self) -> Seq<Sample> {
        self.ready@
    }

    /// The latency in engine frames.
    pub closed spec fn latency(&self) -> u32 {
        self.latency
    }

    /// Between blocks exactly one chunk's worth of samples is queued, on one side or the other.
    pub closed spec fn wf(&self) -> bool {
        &&& self.engine_block >= 1
        &&& self.chunk.wf()
        &&& self.chunk.length() == self.engine_block
        &&& self.chunk@.len() == 1
        &&& self.waiting@.len() + self.ready@.len() == self.engine_block
    }

    /// Whether the queues, having been handed `input`, may hand out `output` and be left as
    /// `after`, with `made` what the processor, `core` before and `core_after` afterwards, made
    /// meanwhile.
    pub open spec fn passed(
        &self,
        core: BoxedStage,
        input: Seq<Sample>,
        output: Seq<Sample>,
        after: SlotResampler,
        core_after: BoxedStage,
        made: Seq<Sample>,
    ) -> bool {
        &&& made.len() == samples_needed(input.len(), self.ready().len(), self.block())
        &&& made.len() <= self.waiting().len() + input.len()
        &&& made_of(core, self.waiting() + input, made, self.block(), core_after)
        &&& output.len() == input.len()
        &&& after.block() == self.block()
        &&& after.latency() == self.latency()
        &&& output + after.ready() == self.ready() + made
        &&& after.waiting() == (self.waiting() + input).skip(made.len() as int)
    }

    /// Whether the queues, having been handed `input`, may hand out `output` and be left as
    /// `after`, with a processor at work between them that was `core` and is left as `core_after`.
    pub open spec fn passes_on(
        &self,
        core: BoxedStage,
        input: Seq<Sample>,
        output: Seq<Sample>,
        after: SlotResampler,
        core_after: BoxedStage,
    ) -> bool {
        exists|made: Seq<Sample>| #[trigger]
            self.passed(core, input, output, after, core_after, made)
    }

    /// What a reset comes to: the queues are as they were when they were made.
    pub open spec fn resets_to(&self, after: SlotResampler) -> bool {
        &&& after.block() == self.block()
        &&& after.latency() == self.latency()
        &&& after.waiting() == Seq::<Sample>::empty()
        &&& after.ready() == Seq::new(self.block(), |i: int| Sample::zero())
    }

    /// The queue invariant, for users of the queues.
    pub proof fn one_chunk_is_queued(&self)
        requires
            self.wf(),
        ensures
            self.waiting().len() + self.ready().len() == self.block(),
            self.block() >= 1,
    {
    }

    /// Queues for chunks of `figures.engine_block` frames, the output side holding one chunk of
    /// silence. Both queues get room enough for blocks of up to `max_block_size` frames never to
    /// make them grow.
    pub fn new(
        engine_rate: SampleRate,
        model_rate: SampleRate,
        max_block_size: usize,
        figures: ConverterFigures,
    ) -> (resampler: SlotResampler)
        requires
            figures.engine_block >= 1,
            4 * (16 * (figures.engine_block + max_block_size) + 4096) <= isize::MAX,
        ensures
            resampler.wf(),
            resampler.block() == figures.engine_block,
            resampler.waiting() == Seq::<Sample>::empty(),
            resampler.ready() == Seq::new(figures.engine_block as nat, |i: int| Sample::zero()),
            resampler.latency() == pipeline_latency(figures, engine_rate.rate(), model_rate.rate()),
    {
        let engine_block: usize = figures.engine_block;
        let fifo_capacity: usize = 16 * (engine_block + max_block_size) + 4096;
        let latency: u32 = pipeline_latency_samples(figures, engine_rate, model_rate);
        let mut buffers: Vec<Vec<Sample>> = Vec::new();
        buffers.push(vec![Sample::zero(); engine_block]);
        let mut resampler = SlotResampler {
            engine_block,
            chunk: StageIo::new(buffers, engine_block),
            waiting: VecDeque::with_capacity(fifo_capacity),
            ready: VecDeque::with_capacity(fifo_capacity),
            latency,
        };
        resampler.prime();
        resampler
    }

    /// Empties both queues and puts one chunk of silence on the output side.
    fn prime(&mut self)
        requires
            old(self).engine_block >= 1,
            old(self).chunk.wf(),
            old(self).chunk.length() == old(self).engine_block,
            old(self).chunk@.len() == 1,
        ensures
            final(self).wf(),
            final(self).block() == old(self).block(),
            final(self).latency() == old(self).latency(),
            final(self).waiting() == Seq::<Sample>::empty(),
            final(self).ready() == Seq::new(old(self).block(), |i: int| Sample::zero()),
    {
        self.waiting.clear();
        self.ready.clear();
        let mut queued: usize = 0;
        while queued < self.engine_block
            invariant
                queued <= self.engine_block,
                self.engine_block >= 1,
                self.engine_block == old(self).engine_block,
                self.latency == old(self).latency,
                self.chunk.wf(),
                self.chunk.length() == self.engine_block,
                self.chunk@.len() == 1,
                self.waiting@ == Seq::<Sample>::empty(),
                self.ready@ == Seq::new(queued as nat, |i: int| Sample::zero()),
            decreases self.engine_block - queued,
        {
            self.ready.push_back(Sample::zero());
            queued = queued + 1;
            assert(self.ready@ =~= Seq::new(queued as nat, |i: int| Sample::zero()));
        }
    }

    /// Takes the next chunk off the input queue, has `core` process it, and puts the result on the
    /// output queue.
    fn run_chunk(&mut self, core: &mut BoxedStage)
        requires
            old(self).engine_block >= 1,
            old(self).chunk.wf(),
            old(self).chunk.length() == old(self).engine_block,
            old(self).chunk@.len() == 1,
            old(self).waiting@.len() >= old(self).engine_block,
        ensures
            final(self).engine_block == old(self).engine_block,
            final(self).latency == old(self).latency,
            final(self).chunk.wf(),
            final(self).chunk.length() == final(self).engine_block,
            final(self).chunk@.len() == 1,
            final(self).waiting@ == old(self).waiting@.skip(old(self).engine_block as int),
            final(self).ready@ == old(self).ready@ + final(self).chunk@[0],
            final(self).chunk@[0].len() == old(self).engine_block,
            runs(
                *old(core),
                old(self).waiting@.take(old(self).engine_block as int),
                final(self).chunk@[0],
                *final(core),
            ),
    {
        broadcast use StageIo::view_has_the_shape;

        let block: usize = self.engine_block;
        let mut i: usize = 0;
        while i < block
            invariant
                i <= block,
                block == self.engine_block,
                block == old(self).engine_block,
                self.latency == old(self).latency,
                self.chunk.wf(),
                self.chunk.length() == block,
                self.chunk@.len() == 1,
                self.chunk@[0].len() == block,
                old(self).waiting@.len() >= block,
                self.waiting@ == old(self).waiting@.skip(i as int),
                self.ready@ == old(self).ready@,
                forall|j: int| 0 <= j < i ==> #[trigger] self.chunk@[0][j] == old(self).waiting@[j],
            decreases block - i,
        {
            let next: Option<Sample> = self.waiting.pop_front();
            if let Some(sample) = next {
                self.chunk.set(0, i, sample);
            }
            i = i + 1;
            assert(self.waiting@ =~= old(self).waiting@.skip(i as int));
        }
        let ghost fed = self.chunk@;
        assert(fed[0] =~= old(self).waiting@.take(block as int));
        assert(fed =~= seq![old(self).waiting@.take(block as int)]);
        core.0.process(&mut self.chunk);
        proof {
            self.chunk.view_has_the_shape();
            assert(self.chunk@ =~= seq![self.chunk@[0]]);
            assert(old(core).0.renders(fed, self.chunk@));
            assert(runs(
                *old(core),
                old(self).waiting@.take(block as int),
                self.chunk@[0],
                *core,
            ));
        }
        let ghost made = self.chunk@;
        let mut k: usize = 0;
        while k < block
            invariant
                k <= block,
                block == self.engine_block,
                block == old(self).engine_block,
                self.latency == old(self).latency,
                self.chunk.wf(),
                self.chunk.length() == block,
                self.chunk@.len() == 1,
                self.chunk@[0].len() == block,
                self.chunk@ == made,
                self.waiting@ == old(self).waiting@.skip(block as int),
                self.ready@ == old(self).ready@ + self.chunk@[0].take(k as int),
            decreases block - k,
        {
            self.ready.push_back(self.chunk.get(0, k));
            k = k + 1;
            assert(self.ready@ =~= old(self).ready@ + self.chunk@[0].take(k as int));
        }
        assert(self.chunk@[0].take(block as int) =~= self.chunk@[0]);
    }

    /// Passes one block of a single channel through the queues and `core`, in place.
    ///
    /// As many chunks are run as the block needs and no more. What comes out is what was ready,
    /// followed by what those chunks make; nothing is skipped and nothing is filled in.
    pub fn process(&mut self, core: &mut BoxedStage, io: &mut StageIo)
        requires
            old(self).wf(),
            old(io).wf(),
            old(io)@.len() == 1,
        ensures
            final(self).wf(),
            final(io).shape() == old(io).shape(),
            old(self).passes_on(
                *old(core),
                old(io)@[0],
                final(io)@[0],
                *final(self),
                *final(core),
            ),
            final(core).0.identity() == old(core).0.identity(),
            final(core).0.told() == old(core).0.told(),
    {
        broadcast use StageIo::view_has_the_shape;

        let n: usize = io.frames();
        let ghost input = io@[0];
        let ghost fed = self.waiting@ + input;
        let mut i: usize = 0;
        while i < n
            invariant
                i <= n,
                n == io.length(),
                *io == *old(io),
                io.wf(),
                io@.len() == 1,
                input == io@[0],
                input.len() == n,
                self.engine_block == old(self).engine_block,
                self.latency == old(self).latency,
                self.chunk == old(self).chunk,
                self.ready@ == old(self).ready@,
                self.waiting@ == old(self).waiting@ + input.take(i as int),
            decreases n - i,
        {
            self.waiting.push_back(io.get(0, i));
            i = i + 1;
            assert(self.waiting@ =~= old(self).waiting@ + input.take(i as int));
        }
        assert(input.take(n as int) =~= input);
        let ghost mut made = Seq::<Sample>::empty();
        assert(self.waiting@ =~= fed.skip(0));
        assert(self.ready@ =~= old(self).ready@ + made);
        let block: usize = self.engine_block;
        while self.ready.len() < n && self.waiting.len() >= block
            invariant
                n == input.len(),
                block >= 1,
                block == self.engine_block,
                block == old(self).engine_block,
                self.latency == old(self).latency,
                self.chunk.wf(),
                self.chunk.length() == block,
                self.chunk@.len() == 1,
                fed == old(self).waiting@ + input,
                old(self).waiting@.len() + old(self).ready@.len() == block,
                made.len() <= fed.len(),
                self.waiting@ == fed.skip(made.len() as int),
                self.ready@ == old(self).ready@ + made,
                made_of(*old(core), fed, made, block as nat, *core),
                made.len() + samples_needed(n as nat, self.ready@.len(), block as nat)
                    == samples_needed(n as nat, old(self).ready@.len(), block as nat),
            decreases self.waiting@.len(),
        {
            let ghost before = made;
            let ghost queue = self.waiting@;
            let ghost between = *core;
            self.run_chunk(core);
            proof {
                let chunk = self.chunk@[0];
                made = before + chunk;
                assert(made.take(before.len() as int) =~= before);
                assert(made.subrange(before.len() as int, made.len() as int) =~= chunk);
                assert(fed.subrange(before.len() as int, made.len() as int) =~= queue.take(
                    block as int,
                ));
                assert(self.waiting@ =~= fed.skip(made.len() as int));
                assert(self.ready@ =~= old(self).ready@ + made);
                assert(runs(
                    between,
                    fed.subrange(before.len() as int, made.len() as int),
                    made.subrange(before.len() as int, made.len() as int),
                    *core,
                ));
            }
        }
        let ghost stream = self.ready@;
        let mut k: usize = 0;
        while k < n
            invariant
                k <= n,
                n == io.length(),
                io.wf(),
                io.shape() == old(io).shape(),
                io@.len() == 1,
                io@[0].len() == n,
                n <= stream.len(),
                self.engine_block == old(self).engine_block,
                self.latency == old(self).latency,
                self.chunk.wf(),
                self.chunk.length() == block,
                self.chunk@.len() == 1,
                self.waiting@ == fed.skip(made.len() as int),
                self.ready@ == stream.skip(k as int),
                forall|j: int| 0 <= j < k ==> #[trigger] io@[0][j] == stream[j],
            decreases n - k,
        {
            let next: Option<Sample> = self.ready.pop_front();
            if let Some(sample) = next {
                io.set(0, k, sample);
            }
            k = k + 1;
            assert(self.ready@ =~= stream.skip(k as int));
        }
        proof {
            assert(io@[0] =~= stream.take(n as int));
            assert(io@[0] + self.ready@ =~= stream);
            assert(old(self).passed(*old(core), input, io@[0], *self, *core, made));
            chunks_do_not_change_the_processor(*old(core), fed, made, block as nat, *core);
        }
    }

    /// Returns the queues to where they were when they were made.
    pub fn reset(&mut self)
        requires
            old(self).wf(),
        ensures
            final(self).wf(),
            old(self).resets_to(*final(self)),
    {
        self.prime();
    }

    /// The latency in engine frames.
    pub fn latency_samples(&self) -> (samples: u32)
        ensures
            samples == self.latency(),
    {
        self.latency
    }
}

proof fn lemma_shifted_need(frames: nat, queued: nat, chunk: nat, by: nat)
    ensures
        samples_needed(frames + by, queued + by, chunk) == samples_needed(frames, queued, chunk),
    decreases frames + chunk - queued,
{
    if frames > queued && chunk > 0 {
        lemma_shifted_need(frames, queued + chunk, chunk, by);
        assert(queued + by + chunk == queued + chunk + by);
    }
}

/// What two blocks need one after the other is what they need together.
proof fn lemma_need_adds_up(first: nat, second: nat, queued: nat, chunk: nat)
    requires
        chunk >= 1,
    ensures
        queued + samples_needed(first, queued, chunk) >= first,
        samples_needed(first + second, queued, chunk) == samples_needed(first, queued, chunk)
            + samples_needed(
            second,
            (queued + samples_needed(first, queued, chunk) - first) as nat,
            chunk,
        ),
    decreases first + chunk - queued,
{
    if first <= queued {
        lemma_shifted_need(second, (queued - first) as nat, chunk, first);
        assert(second + first == first + second);
    } else {
        lemma_need_adds_up(first, second, queued + chunk, chunk);
    }
}

proof fn lemma_made_on_longer_feed(
    core: BoxedStage,
    fed: Seq<Sample>,
    more: Seq<Sample>,
    made: Seq<Sample>,
    chunk: nat,
    after: BoxedStage,
)
    requires
        made_of(core, fed, made, chunk, after),
    ensures
        made_of(core, fed + more, made, chunk, after),
    decreases made.len(),
{
    if made.len() > 0 && chunk > 0 {
        let before = made.len() - chunk;
        let between = choose|between: BoxedStage|
            {
                &&& #[trigger] runs(
                    between,
                    fed.subrange(before, made.len() as int),
                    made.subrange(before, made.len() as int),
                    after,
                )
                &&& made_of(core, fed, made.take(before), chunk, between)
            };
        lemma_made_on_longer_feed(core, fed, more, made.take(before), chunk, between);
        assert((fed + more).subrange(before, made.len() as int) =~= fed.subrange(
            before,
            made.len() as int,
        ));
    }
}

proof fn lemma_made_in_sequence(
    core: BoxedStage,
    middle: BoxedStage,
    after: BoxedStage,
    fed: Seq<Sample>,
    first: Seq<Sample>,
    second: Seq<Sample>,
    chunk: nat,
)
    requires
        chunk >= 1,
        first.len() <= fed.len(),
        made_of(core, fed, first, chunk, middle),
        made_of(middle, fed.skip(first.len() as int), second, chunk, after),
    ensures
        made_of(core, fed, first + second, chunk, after),
    decreases second.len(),
{
    let rest = fed.skip(first.len() as int);
    if second.len() == 0 {
        assert(first + second =~= first);
    } else {
        let before = second.len() - chunk;
        let whole = first + second;
        let between = choose|between: BoxedStage|
            {
                &&& #[trigger] runs(
                    between,
                    rest.subrange(before, second.len() as int),
                    second.subrange(before, second.len() as int),
                    after,
                )
                &&& made_of(middle, rest, second.take(before), chunk, between)
            };
        lemma_made_in_sequence(core, middle, between, fed, first, second.take(before), chunk);
        assert(whole.take(whole.len() - chunk) =~= first + second.take(before));
        assert(fed.subrange(whole.len() - chunk, whole.len() as int) =~= rest.subrange(
            before,
            second.len() as int,
        ));
        assert(whole.subrange(whole.len() - chunk, whole.len() as int) =~= second.subrange(
            before,
            second.len() as int,
        ));
    }
}

/// How a stream is divided into blocks is invisible: two blocks in a row do what the one block
/// made of both does, chunk for chunk and sample for sample.
pub proof fn division_into_blocks_is_invisible(
    start: SlotResampler,
    middle: SlotResampler,
    end: SlotResampler,
    core: (BoxedStage, BoxedStage, BoxedStage),
    input: (Seq<Sample>, Seq<Sample>),
    output: (Seq<Sample>, Seq<Sample>),
)
    requires
        start.wf(),
        start.passes_on(core.0, input.0, output.0, middle, core.1),
        middle.passes_on(core.1, input.1, output.1, end, core.2),
    ensures
        start.passes_on(core.0, input.0 + input.1, output.0 + output.1, end, core.2),
{
    let chunk = start.block();
    let made0 = choose|made: Seq<Sample>|
        start.passed(core.0, input.0, output.0, middle, core.1, made);
    let made1 = choose|made: Seq<Sample>|
        middle.passed(core.1, input.1, output.1, end, core.2, made);
    let made = made0 + made1;
    let fed = start.waiting() + (input.0 + input.1);
    start.one_chunk_is_queued();
    lemma_need_adds_up(input.0.len(), input.1.len(), start.ready().len(), chunk);
    assert((output.0 + middle.ready()).len() == (start.ready() + made0).len());
    assert(fed =~= (start.waiting() + input.0) + input.1);
    assert(fed.skip(made0.len() as int) =~= middle.waiting() + input.1);
    lemma_made_on_longer_feed(core.0, start.waiting() + input.0, input.1, made0, chunk, core.1);
    lemma_made_in_sequence(core.0, core.1, core.2, fed, made0, made1, chunk);
    assert((output.0 + output.1) + end.ready() =~= output.0 + (output.1 + end.ready()));
    assert(output.0 + (middle.ready() + made1) =~= (output.0 + middle.ready()) + made1);
    assert((start.ready() + made0) + made1 =~= start.ready() + made);
    assert(fed.skip(made.len() as int) =~= (middle.waiting() + input.1).skip(made1.len() as int));
    assert((input.0 + input.1).len() == input.0.len() + input.1.len());
    assert(start.passed(core.0, input.0 + input.1, output.0 + output.1, end, core.2, made));
}

/// Queues that have just been made or reset delay by exactly one chunk: their first chunk of
/// output is silence, and from there on the output is what the processor makes, in order.
pub proof fn fresh_queues_delay_by_one_chunk(
    start: SlotResampler,
    end: SlotResampler,
    core: (BoxedStage, BoxedStage),
    input: Seq<Sample>,
    output: Seq<Sample>,
    made: Seq<Sample>,
    frame: int,
)
    requires
        start.wf(),
        start.waiting() == Seq::<Sample>::empty(),
        start.ready() == Seq::new(start.block(), |i: int| Sample::zero()),
        start.passed(core.0, input, output, end, core.1, made),
        0 <= frame < input.len(),
    ensures
        frame < start.block() ==> output[frame] == Sample::zero(),
        frame >= start.block() ==> output[frame] == made[frame - start.block()],
        made_of(core.0, input, made, start.block(), core.1),
{
    assert((output + end.ready()).len() == (start.ready() + made).len());
    assert((output + end.ready())[frame] == output[frame]);
    assert((start.ready() + made)[frame] == output[frame]);
    assert(start.waiting() + input =~= input);
}

} // verus!
