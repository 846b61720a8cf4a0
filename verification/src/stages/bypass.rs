//! The click-free blend between a stage's dry input and its processed output, shared by the stages
//! that can be switched off.

use vstd::prelude::*;

use crate::math::{
    blend_value, blended, exact_at_rest, position_after, single_valued, smooth_path, steady,
    step_value, stepped, SampleMath,
};
use crate::sample::Sample;
use crate::stage_io::StageIo;

verus! {

/// The time constant of the blend, in milliseconds.
pub const BYPASS_CROSSFADE_TIME_CONSTANT_MS: u32 = 15;

/// Where a stage's blend stands and where it is heading: 0 is fully dry, 1 is fully processed.
#[derive(Clone, Copy, Debug, PartialEq, Eq, Structural)]
pub struct BypassBlend {
    /// The present position.
    pub mix: Sample,
    /// The position the blend moves towards.
    pub target: Sample,
    /// How far it moves per sample, as a one-pole coefficient.
    pub coefficient: Sample,
}

/// One channel of a blend: starting from `start`, the position takes one step towards `target` per
/// frame, and each frame is blended from dry to wet at the position after its step. `end` is the
/// last position.
pub open spec fn channel_blends<A: SampleMath>(
    math: A,
    start: Sample,
    target: Sample,
    coefficient: Sample,
    dry: Seq<Sample>,
    wet: Seq<Sample>,
    out: Seq<Sample>,
    end: Sample,
) -> bool {
    exists|path: Seq<Sample>|
        {
            &&& #[trigger] smooth_path(math, start, target, coefficient, path)
            &&& path.len() == out.len() + 1
            &&& path.last() == end
            &&& wet.len() == out.len()
            &&& forall|i: int|
                0 <= i < out.len() ==> blended(math, dry[i], wet[i], path[i + 1], #[trigger] out[i])
        }
}

/// One channel of a blend, wherever it ends.
pub open spec fn channel_runs<A: SampleMath>(
    math: A,
    blend: BypassBlend,
    dry: Seq<Sample>,
    wet: Seq<Sample>,
    out: Seq<Sample>,
) -> bool {
    exists|end: Sample|
        channel_blends(math, blend.mix, blend.target, blend.coefficient, dry, wet, out, end)
}

/// A block of a blend: every channel runs through the same positions from the same start, and the
/// last channel's end is where the blend stands afterwards.
pub open spec fn block_blends<A: SampleMath>(
    math: A,
    blend: BypassBlend,
    dry: Seq<Seq<Sample>>,
    wet: Seq<Seq<Sample>>,
    out: Seq<Seq<Sample>>,
    end: Sample,
) -> bool {
    &&& out.len() == wet.len()
    &&& out.len() >= 1
    &&& channel_blends(
        math,
        blend.mix,
        blend.target,
        blend.coefficient,
        dry[out.len() - 1],
        wet[out.len() - 1],
        out[out.len() - 1],
        end,
    )
    &&& forall|ch: int|
        0 <= ch < out.len() ==> channel_runs(math, blend, dry[ch], wet[ch], #[trigger] out[ch])
}

/// Two blocks blended one after the other come to the same as both blended at once: how a stretch
/// of signal is divided into blocks is not heard.
pub proof fn a_blend_does_not_depend_on_the_division<A: SampleMath>(
    math: A,
    start: Sample,
    between: Sample,
    end: Sample,
    target: Sample,
    coefficient: Sample,
    dry: (Seq<Sample>, Seq<Sample>),
    wet: (Seq<Sample>, Seq<Sample>),
    out: (Seq<Sample>, Seq<Sample>),
)
    requires
        dry.0.len() == out.0.len(),
        dry.1.len() == out.1.len(),
        channel_blends(math, start, target, coefficient, dry.0, wet.0, out.0, between),
        channel_blends(math, between, target, coefficient, dry.1, wet.1, out.1, end),
    ensures
        channel_blends(
            math,
            start,
            target,
            coefficient,
            dry.0 + dry.1,
            wet.0 + wet.1,
            out.0 + out.1,
            end,
        ),
{
    let first = choose|path: Seq<Sample>|
        {
            &&& #[trigger] smooth_path(math, start, target, coefficient, path)
            &&& path.len() == out.0.len() + 1
            &&& path.last() == between
            &&& wet.0.len() == out.0.len()
            &&& forall|i: int|
                0 <= i < out.0.len() ==> blended(
                    math,
                    dry.0[i],
                    wet.0[i],
                    path[i + 1],
                    #[trigger] out.0[i],
                )
        };
    let second = choose|path: Seq<Sample>|
        {
            &&& #[trigger] smooth_path(math, between, target, coefficient, path)
            &&& path.len() == out.1.len() + 1
            &&& path.last() == end
            &&& wet.1.len() == out.1.len()
            &&& forall|i: int|
                0 <= i < out.1.len() ==> blended(
                    math,
                    dry.1[i],
                    wet.1[i],
                    path[i + 1],
                    #[trigger] out.1[i],
                )
        };
    let n = out.0.len() as int;
    let path = first + second.subrange(1, second.len() as int);
    assert forall|i: int| 0 <= i < path.len() - 1 implies stepped(
        math,
        #[trigger] path[i],
        target,
        coefficient,
        path[i + 1],
    ) by {
        if i < n {
            assert(stepped(math, first[i], target, coefficient, first[i + 1]));
        } else {
            assert(path[i] == second[i - n]);
            assert(stepped(math, second[i - n], target, coefficient, second[i - n + 1]));
        }
    }
    assert(smooth_path(math, start, target, coefficient, path));
    let all = out.0 + out.1;
    assert forall|i: int| 0 <= i < all.len() implies blended(
        math,
        (dry.0 + dry.1)[i],
        (wet.0 + wet.1)[i],
        path[i + 1],
        #[trigger] all[i],
    ) by {
        if i < n {
            assert(blended(math, dry.0[i], wet.0[i], first[i + 1], out.0[i]));
        } else {
            assert(blended(math, dry.1[i - n], wet.1[i - n], second[i - n + 1], out.1[i - n]));
        }
    }
}

/// A run of a smoother has only one end, if its steps have only one result.
proof fn lemma_one_end<A: SampleMath>(
    math: A,
    start: Sample,
    target: Sample,
    coefficient: Sample,
    a: Seq<Sample>,
    b: Seq<Sample>,
    k: int,
)
    requires
        steady(math),
        smooth_path(math, start, target, coefficient, a),
        smooth_path(math, start, target, coefficient, b),
        0 <= k < a.len(),
        k < b.len(),
    ensures
        a[k] == b[k],
    decreases k,
{
    if k > 0 {
        lemma_one_end(math, start, target, coefficient, a, b, k - 1);
        assert(stepped(math, a[k - 1], target, coefficient, a[k - 1 + 1]));
        assert(stepped(math, b[k - 1], target, coefficient, b[k - 1 + 1]));
    }
}

/// The last channel of a block ends where the blend stands afterwards, and so does every other if
/// the steps have only one result.
pub proof fn channels_end_together<A: SampleMath>(
    math: A,
    blend: BypassBlend,
    dry: Seq<Seq<Sample>>,
    wet: Seq<Seq<Sample>>,
    out: Seq<Seq<Sample>>,
    end: Sample,
    ch: int,
)
    requires
        block_blends(math, blend, dry, wet, out, end),
        0 <= ch < out.len(),
        wet[ch].len() == wet[out.len() - 1].len(),
        ch == out.len() - 1 || steady(math),
    ensures
        out[ch].len() == wet[ch].len(),
        channel_blends(
            math,
            blend.mix,
            blend.target,
            blend.coefficient,
            dry[ch],
            wet[ch],
            out[ch],
            end,
        ),
{
    assert(channel_runs(math, blend, dry[ch], wet[ch], out[ch]));
    if ch != out.len() - 1 {
        let last = out.len() - 1;
        let own_end = choose|e: Sample|
            channel_blends(
                math,
                blend.mix,
                blend.target,
                blend.coefficient,
                dry[ch],
                wet[ch],
                out[ch],
                e,
            );
        let own = choose|path: Seq<Sample>|
            {
                &&& #[trigger] smooth_path(math, blend.mix, blend.target, blend.coefficient, path)
                &&& path.len() == out[ch].len() + 1
                &&& path.last() == own_end
            };
        let other = choose|path: Seq<Sample>|
            {
                &&& #[trigger] smooth_path(math, blend.mix, blend.target, blend.coefficient, path)
                &&& path.len() == out[last].len() + 1
                &&& path.last() == end
            };
        lemma_one_end(
            math,
            blend.mix,
            blend.target,
            blend.coefficient,
            own,
            other,
            own.len() - 1,
        );
        assert(own_end == end);
    }
}

/// A blend whose operations have only one result has only one result itself, frame for frame.
pub proof fn a_blend_has_one_result<A: SampleMath>(
    math: A,
    start: Sample,
    target: Sample,
    coefficient: Sample,
    dry: Seq<Sample>,
    wet: Seq<Sample>,
    out: Seq<Sample>,
    end: Sample,
)
    requires
        single_valued(math),
        channel_blends(math, start, target, coefficient, dry, wet, out, end),
    ensures
        end == position_after(math, start, target, coefficient, out.len()),
        forall|i: int|
            0 <= i < out.len() ==> #[trigger] out[i] == blend_value(
                math,
                dry[i],
                wet[i],
                position_after(math, start, target, coefficient, (i + 1) as nat),
            ),
{
    let path = choose|path: Seq<Sample>|
        {
            &&& #[trigger] smooth_path(math, start, target, coefficient, path)
            &&& path.len() == out.len() + 1
            &&& path.last() == end
            &&& wet.len() == out.len()
            &&& forall|i: int|
                0 <= i < out.len() ==> blended(math, dry[i], wet[i], path[i + 1], #[trigger] out[i])
        };
    lemma_positions(math, start, target, coefficient, path, out.len() as int);
    assert forall|i: int| 0 <= i < out.len() implies #[trigger] out[i] == blend_value(
        math,
        dry[i],
        wet[i],
        position_after(math, start, target, coefficient, (i + 1) as nat),
    ) by {
        lemma_positions(math, start, target, coefficient, path, i + 1);
        assert(blended(math, dry[i], wet[i], path[i + 1], out[i]));
        assert(blended(
            math,
            dry[i],
            wet[i],
            path[i + 1],
            blend_value(math, dry[i], wet[i], path[i + 1]),
        ));
    }
}

/// A block is blended in one way only, if the operations of a blend have only one result.
pub proof fn a_block_is_blended_one_way<A: SampleMath>(
    math: A,
    blend: BypassBlend,
    dry: Seq<Seq<Sample>>,
    wet: Seq<Seq<Sample>>,
    out: (Seq<Seq<Sample>>, Seq<Seq<Sample>>),
    end: (Sample, Sample),
)
    requires
        single_valued(math),
        block_blends(math, blend, dry, wet, out.0, end.0),
        block_blends(math, blend, dry, wet, out.1, end.1),
    ensures
        out.0 == out.1,
        end.0 == end.1,
{
    let last = wet.len() - 1;
    let (mix, target, coefficient) = (blend.mix, blend.target, blend.coefficient);
    a_blend_has_one_result(
        math,
        mix,
        target,
        coefficient,
        dry[last],
        wet[last],
        out.0[last],
        end.0,
    );
    a_blend_has_one_result(
        math,
        mix,
        target,
        coefficient,
        dry[last],
        wet[last],
        out.1[last],
        end.1,
    );
    assert forall|c: int| 0 <= c < wet.len() implies #[trigger] out.0[c] == out.1[c] by {
        assert(channel_runs(math, blend, dry[c], wet[c], out.0[c]));
        assert(channel_runs(math, blend, dry[c], wet[c], out.1[c]));
        let a = choose|e: Sample|
            channel_blends(math, mix, target, coefficient, dry[c], wet[c], out.0[c], e);
        let b = choose|e: Sample|
            channel_blends(math, mix, target, coefficient, dry[c], wet[c], out.1[c], e);
        a_blend_has_one_result(math, mix, target, coefficient, dry[c], wet[c], out.0[c], a);
        a_blend_has_one_result(math, mix, target, coefficient, dry[c], wet[c], out.1[c], b);
        assert(out.0[c].len() == wet[c].len() && out.1[c].len() == wet[c].len());
        assert forall|i: int| 0 <= i < wet[c].len() implies out.0[c][i] == out.1[c][i] by {
            assert(out.0[c][i] == out.0[c][i]);
            assert(out.1[c][i] == out.1[c][i]);
        }
        assert(out.0[c] =~= out.1[c]);
    }
    assert(out.0 =~= out.1);
}

/// A smoother's steps, if each has only one result.
proof fn lemma_positions<A: SampleMath>(
    math: A,
    start: Sample,
    target: Sample,
    coefficient: Sample,
    path: Seq<Sample>,
    k: int,
)
    requires
        steady(math),
        smooth_path(math, start, target, coefficient, path),
        0 <= k < path.len(),
    ensures
        path[k] == position_after(math, start, target, coefficient, k as nat),
    decreases k,
{
    if k > 0 {
        lemma_positions(math, start, target, coefficient, path, k - 1);
        assert(stepped(math, path[k - 1], target, coefficient, path[k - 1 + 1]));
        assert(stepped(
            math,
            path[k - 1],
            target,
            coefficient,
            step_value(math, path[k - 1], target, coefficient),
        ));
    }
}

/// A blend that has arrived at one end gives that side, sample for sample, and stays there. A
/// negative zero may come out as a zero.
pub proof fn a_blend_at_rest_is_one_side<A: SampleMath>(
    math: A,
    at: Sample,
    coefficient: Sample,
    dry: Seq<Sample>,
    wet: Seq<Sample>,
    out: Seq<Sample>,
    end: Sample,
    i: int,
)
    requires
        exact_at_rest(math),
        coefficient.finite(),
        at == Sample::zero() || at == Sample::one(),
        channel_blends(math, at, at, coefficient, dry, wet, out, end),
    ensures
        end == at,
        0 <= i < out.len() && dry[i].finite() && wet[i].finite() ==> {
            let side = if at == Sample::one() {
                wet[i]
            } else {
                dry[i]
            };
            out[i].same_number(side) && (side.plain() ==> out[i] == side)
        },
{
    let path = choose|path: Seq<Sample>|
        {
            &&& #[trigger] smooth_path(math, at, at, coefficient, path)
            &&& path.len() == out.len() + 1
            &&& path.last() == end
            &&& wet.len() == out.len()
            &&& forall|i: int|
                0 <= i < out.len() ==> blended(math, dry[i], wet[i], path[i + 1], #[trigger] out[i])
        };
    lemma_stays(math, at, coefficient, path, path.len() - 1);
    if 0 <= i < out.len() {
        lemma_stays(math, at, coefficient, path, i + 1);
        assert(blended(math, dry[i], wet[i], path[i + 1], out[i]));
    }
}

/// A smoother that has arrived stays.
proof fn lemma_stays<A: SampleMath>(
    math: A,
    at: Sample,
    coefficient: Sample,
    path: Seq<Sample>,
    k: int,
)
    requires
        exact_at_rest(math),
        coefficient.finite(),
        at == Sample::zero() || at == Sample::one(),
        smooth_path(math, at, at, coefficient, path),
        0 <= k < path.len(),
    ensures
        path[k] == at,
    decreases k,
{
    if k > 0 {
        lemma_stays(math, at, coefficient, path, k - 1);
        assert(stepped(math, path[k - 1], at, coefficient, path[k - 1 + 1]));
    }
}

impl BypassBlend {
    /// Blends the processed block in `io` against the dry one, in place, moving on by one step per
    /// frame.
    pub fn run<A: SampleMath>(&mut self, math: &A, dry: &StageIo, io: &mut StageIo)
        requires
            old(io).wf(),
            dry.wf(),
            dry.length() == old(io).length(),
            1 <= old(io)@.len() <= dry@.len(),
        ensures
            final(io).shape() == old(io).shape(),
            final(self).target == old(self).target,
            final(self).coefficient == old(self).coefficient,
            block_blends(*math, *old(self), dry@, old(io)@, final(io)@, final(self).mix),
    {
        broadcast use StageIo::view_has_the_shape;

        let channels: usize = io.channel_count();
        let start: Sample = self.mix;
        let ghost wet = io@;
        let ghost blend = *self;
        let mut ch: usize = 0;
        while ch < channels
            invariant
                ch <= channels,
                channels >= 1,
                channels == wet.len(),
                wet == old(io)@,
                blend == *old(self),
                io.wf(),
                io.shape() == old(io).shape(),
                io@.len() == channels,
                dry.wf(),
                dry.length() == io.length(),
                channels <= dry@.len(),
                start == blend.mix,
                self.target == blend.target,
                self.coefficient == blend.coefficient,
                forall|c: int| ch <= c < channels ==> #[trigger] io@[c] == wet[c],
                ch >= 1 ==> channel_blends(
                    *math,
                    blend.mix,
                    blend.target,
                    blend.coefficient,
                    dry@[ch - 1],
                    wet[ch - 1],
                    io@[ch - 1],
                    self.mix,
                ),
                forall|c: int|
                    0 <= c < ch ==> channel_runs(*math, blend, dry@[c], wet[c], #[trigger] io@[c]),
            decreases channels - ch,
        {
            let end: Sample = Self::run_channel(
                math,
                start,
                self.target,
                self.coefficient,
                dry,
                io,
                ch,
            );
            self.mix = end;
            assert(channel_runs(
                *math,
                blend,
                dry@[ch as int],
                wet[ch as int],
                io@[ch as int],
            ));
            ch = ch + 1;
        }
    }

    /// Blends one channel and returns the last position.
    fn run_channel<A: SampleMath>(
        math: &A,
        start: Sample,
        target: Sample,
        coefficient: Sample,
        dry: &StageIo,
        io: &mut StageIo,
        ch: usize,
    ) -> (end: Sample)
        requires
            old(io).wf(),
            dry.wf(),
            dry.length() == old(io).length(),
            ch < old(io)@.len() <= dry@.len(),
        ensures
            final(io).shape() == old(io).shape(),
            final(io)@.len() == old(io)@.len(),
            forall|c: int|
                0 <= c < old(io)@.len() && c != ch ==> #[trigger] final(io)@[c] == old(io)@[c],
            channel_blends(
                *math,
                start,
                target,
                coefficient,
                dry@[ch as int],
                old(io)@[ch as int],
                final(io)@[ch as int],
                end,
            ),
    {
        broadcast use StageIo::view_has_the_shape;

        let frames: usize = io.frames();
        let mut position: Sample = start;
        let ghost mut path = seq![start];
        let ghost wet = io@[ch as int];
        proof {
            io.view_has_the_shape();
            dry.view_has_the_shape();
        }
        let mut i: usize = 0;
        while i < frames
            invariant
                i <= frames,
                frames == io.length(),
                frames == dry.length(),
                io.wf(),
                dry.wf(),
                ch < io@.len() <= dry@.len(),
                io.shape() == old(io).shape(),
                io@.len() == old(io)@.len(),
                wet == old(io)@[ch as int],
                wet.len() == frames,
                io@[ch as int].len() == frames,
                dry@[ch as int].len() == frames,
                forall|c: int|
                    0 <= c < io@.len() && c != ch ==> #[trigger] io@[c] == old(io)@[c],
                smooth_path(*math, start, target, coefficient, path),
                path.len() == i + 1,
                path.last() == position,
                forall|k: int|
                    0 <= k < i ==> blended(
                        *math,
                        dry@[ch as int][k],
                        wet[k],
                        path[k + 1],
                        #[trigger] io@[ch as int][k],
                    ),
                forall|k: int| i <= k < frames ==> #[trigger] io@[ch as int][k] == wet[k],
            decreases frames - i,
        {
            let ghost before = path;
            let from: Sample = dry.get(ch, i);
            let to: Sample = io.get(ch, i);
            let next: Sample = math.one_pole(position, target, coefficient);
            let out: Sample = math.blend(from, to, next);
            io.set(ch, i, out);
            proof {
                assert(stepped(*math, position, target, coefficient, next));
                assert(blended(*math, from, to, next, out));
                path = path.push(next);
                assert forall|k: int| 0 <= k < path.len() - 1 implies stepped(
                    *math,
                    #[trigger] path[k],
                    target,
                    coefficient,
                    path[k + 1],
                ) by {
                    if k < before.len() - 1 {
                        assert(stepped(*math, before[k], target, coefficient, before[k + 1]));
                    }
                }
            }
            position = next;
            i = i + 1;
        }
        position
    }
}

} // verus!
