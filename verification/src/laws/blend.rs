//! What is heard of a blend between two signals.

use vstd::prelude::*;

use crate::math::{smooth_path, SampleMath};
use crate::sample::Sample;
use crate::stages::bypass::{block_blends, channel_blends, channel_runs, BypassBlend};

verus! {

/// Whether a position has moved from `start` towards `target`, by one smoothing step per frame.
pub open spec fn glides<A: SampleMath>(
    math: A,
    start: Sample,
    target: Sample,
    coefficient: Sample,
    positions: Seq<Sample>,
) -> bool {
    &&& positions.len() >= 1
    &&& positions[0] == start
    &&& forall|i: int|
        #![trigger positions[i]]
        0 <= i < positions.len() - 1 ==> call_ensures(
            A::one_pole,
            (&math, positions[i], target, coefficient),
            positions[i + 1],
        )
}

/// Whether `heard` is, frame by frame, the blend from `from` to `to` at positions that start out
/// from `start` and move towards `target`, the first of them one step away from it. At position 0
/// that is `from`, and at position 1 it is `to`.
pub open spec fn heard_between<A: SampleMath>(
    math: A,
    start: Sample,
    target: Sample,
    coefficient: Sample,
    from: Seq<Sample>,
    to: Seq<Sample>,
    heard: Seq<Sample>,
    end: Sample,
) -> bool {
    exists|positions: Seq<Sample>|
        {
            &&& #[trigger] glides(math, start, target, coefficient, positions)
            &&& positions.len() == heard.len() + 1
            &&& positions[heard.len() as int] == end
            &&& to.len() == heard.len()
            &&& forall|i: int|
                #![trigger heard[i]]
                0 <= i < heard.len() ==> call_ensures(
                    A::blend,
                    (&math, from[i], to[i], positions[i + 1]),
                    heard[i],
                )
        }
}

/// Whether a signal is heard between two others, wherever the blend comes to stand.
pub open spec fn heard_somewhere_between<A: SampleMath>(
    math: A,
    blend: BypassBlend,
    from: Seq<Sample>,
    to: Seq<Sample>,
    heard: Seq<Sample>,
) -> bool {
    exists|end: Sample| #[trigger]
        heard_between(
            math,
            blend.mix,
            blend.target,
            blend.coefficient,
            from,
            to,
            heard,
            end,
        )
}

/// Whether every channel is heard between its two sides, and the blend is left where the last of
/// them comes to stand.
pub open spec fn all_heard_between<A: SampleMath>(
    math: A,
    blend: BypassBlend,
    from: Seq<Seq<Sample>>,
    to: Seq<Seq<Sample>>,
    heard: Seq<Seq<Sample>>,
    end: Sample,
) -> bool {
    &&& heard.len() == to.len()
    &&& heard.len() >= 1
    &&& heard_between(
        math,
        blend.mix,
        blend.target,
        blend.coefficient,
        from[heard.len() - 1],
        to[heard.len() - 1],
        heard[heard.len() - 1],
        end,
    )
    &&& forall|c: int|
        0 <= c < heard.len() ==> heard_somewhere_between(
            math,
            blend,
            from[c],
            to[c],
            #[trigger] heard[c],
        )
}

/// Whether every channel is heard between its own signal and one that they all share.
pub open spec fn all_heard_towards<A: SampleMath>(
    math: A,
    blend: BypassBlend,
    from: Seq<Seq<Sample>>,
    to: Seq<Sample>,
    heard: Seq<Seq<Sample>>,
    end: Sample,
) -> bool {
    all_heard_between(math, blend, from, Seq::new(from.len(), |c: int| to), heard, end)
}

/// What a stage's blend makes of a block is heard, on every channel, between that channel's dry
/// signal and its processed one, from where the blend stood towards where it is heading; and it
/// stands where the last channel left it.
pub proof fn a_blend_is_heard_between_its_two_sides<A: SampleMath>(
    math: A,
    blend: BypassBlend,
    dry: Seq<Seq<Sample>>,
    wet: Seq<Seq<Sample>>,
    out: Seq<Seq<Sample>>,
    end: Sample,
)
    requires
        block_blends(math, blend, dry, wet, out, end),
    ensures
        all_heard_between(math, blend, dry, wet, out, end),
{
    let last = out.len() - 1;
    lemma_channel(
        math,
        blend.mix,
        blend.target,
        blend.coefficient,
        dry[last],
        wet[last],
        out[last],
        end,
    );
    assert forall|c: int| 0 <= c < out.len() implies heard_somewhere_between(
        math,
        blend,
        dry[c],
        wet[c],
        #[trigger] out[c],
    ) by {
        assert(channel_runs(math, blend, dry[c], wet[c], out[c]));
        let at = choose|at: Sample|
            channel_blends(
                math,
                blend.mix,
                blend.target,
                blend.coefficient,
                dry[c],
                wet[c],
                out[c],
                at,
            );
        lemma_channel(
            math,
            blend.mix,
            blend.target,
            blend.coefficient,
            dry[c],
            wet[c],
            out[c],
            at,
        );
    }
}

/// One channel of a blend.
proof fn lemma_channel<A: SampleMath>(
    math: A,
    start: Sample,
    target: Sample,
    coefficient: Sample,
    dry: Seq<Sample>,
    wet: Seq<Sample>,
    out: Seq<Sample>,
    end: Sample,
)
    requires
        channel_blends(math, start, target, coefficient, dry, wet, out, end),
    ensures
        heard_between(math, start, target, coefficient, dry, wet, out, end),
{
    let path = choose|path: Seq<Sample>|
        {
            &&& #[trigger] smooth_path(math, start, target, coefficient, path)
            &&& path.len() == out.len() + 1
            &&& path.last() == end
            &&& wet.len() == out.len()
            &&& forall|i: int|
                0 <= i < out.len() ==> crate::math::blended(
                    math,
                    dry[i],
                    wet[i],
                    path[i + 1],
                    #[trigger] out[i],
                )
        };
    assert(glides(math, start, target, coefficient, path));
}

} // verus!
