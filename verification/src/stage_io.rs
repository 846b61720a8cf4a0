//! One block of audio on its way through the chain.

use vstd::prelude::*;
use vstd::slice::slice_subrange;

use crate::sample::Sample;

verus! {

/// Whether every channel of `block` has exactly `frames` samples.
pub open spec fn block_of(block: Seq<Seq<Sample>>, frames: nat) -> bool {
    forall|ch: int| 0 <= ch < block.len() ==> (#[trigger] block[ch]).len() == frames
}

/// Whether two blocks have the same channels, of the same lengths.
pub open spec fn alike(a: Seq<Seq<Sample>>, b: Seq<Seq<Sample>>) -> bool {
    &&& a.len() == b.len()
    &&& forall|ch: int| 0 <= ch < a.len() ==> (#[trigger] b[ch]).len() == a[ch].len()
}

/// A block of `channels` channels of `frames` zeros.
pub open spec fn silent_block(channels: nat, frames: nat) -> Seq<Seq<Sample>> {
    Seq::new(channels, |ch: int| Seq::new(frames, |i: int| Sample::zero()))
}

/// Whether every block of a stream has `channels` channels, all of one length.
pub open spec fn stream_of(blocks: Seq<Seq<Seq<Sample>>>, channels: nat) -> bool {
    forall|k: int|
        0 <= k < blocks.len() ==> (#[trigger] blocks[k]).len() == channels && block_of(
            blocks[k],
            blocks[k][0].len(),
        )
}

/// Channel `ch` of a stream: that channel of every block, one after the other.
pub open spec fn joined(blocks: Seq<Seq<Seq<Sample>>>, ch: int) -> Seq<Sample>
    decreases blocks.len(),
{
    if blocks.len() == 0 {
        Seq::empty()
    } else {
        joined(blocks.drop_last(), ch) + blocks.last()[ch]
    }
}

/// All channels of a stream are of one length.
pub proof fn channels_keep_pace(blocks: Seq<Seq<Seq<Sample>>>, channels: nat, ch: int)
    requires
        stream_of(blocks, channels),
        0 <= ch < channels,
    ensures
        joined(blocks, ch).len() == joined(blocks, 0).len(),
    decreases blocks.len(),
{
    if blocks.len() > 0 {
        channels_keep_pace(blocks.drop_last(), channels, ch);
        assert(block_of(blocks[blocks.len() - 1], blocks[blocks.len() - 1][0].len()));
    }
}

/// Per-block audio for one [`crate::stage::Stage::process`] call. Its view is the block: for each
/// channel, the samples that count. A channel's buffer may be longer than that, never shorter;
/// what lies beyond the block is not part of it.
pub struct StageIo {
    channels: Vec<Vec<Sample>>,
    frames: usize,
}

impl View for StageIo {
    type V = Seq<Seq<Sample>>;

    closed spec fn view(&self) -> Seq<Seq<Sample>> {
        Seq::new(
            self.channels@.len(),
            |ch: int| self.channels@[ch]@.subrange(0, self.frames as int),
        )
    }
}

impl StageIo {
    /// What is not the block: how many frames count, how long each channel's buffer is, and what
    /// it holds beyond the block.
    pub closed spec fn shape(&self) -> (nat, Seq<nat>, Seq<Seq<Sample>>) {
        (
            self.frames as nat,
            Seq::new(self.channels@.len(), |ch: int| self.channels@[ch]@.len()),
            Seq::new(self.channels@.len(), |ch: int| self.channels@[ch]@.skip(self.frames as int)),
        )
    }

    /// The number of frames that count.
    pub open spec fn length(&self) -> nat {
        self.shape().0
    }

    /// Whether every buffer is long enough for `frames` frames.
    pub open spec fn carries(&self, frames: nat) -> bool {
        forall|ch: int| 0 <= ch < self.shape().1.len() ==> frames <= #[trigger] self.shape().1[ch]
    }

    /// No buffer is shorter than the block.
    pub open spec fn wf(&self) -> bool {
        self.carries(self.length())
    }

    /// The view has one sequence per buffer, each as long as the block.
    pub broadcast proof fn view_has_the_shape(&self)
        requires
            self.wf(),
        ensures
            #![trigger self@]
            self@.len() == self.shape().1.len(),
            block_of(self@, self.length()),
    {
        assert forall|ch: int| 0 <= ch < self@.len() implies (#[trigger] self@[ch]).len()
            == self.length() by {
            assert(self.shape().1[ch] == self.channels@[ch]@.len());
        }
    }

    /// Takes `frames` frames of `channels` as a block.
    pub fn new(channels: Vec<Vec<Sample>>, frames: usize) -> (io: StageIo)
        requires
            forall|ch: int|
                0 <= ch < channels@.len() ==> frames <= (#[trigger] channels@[ch])@.len(),
        ensures
            io.wf(),
            io.length() == frames,
            io.shape().1 == Seq::new(channels@.len(), |ch: int| channels@[ch]@.len()),
            io.shape().2 == Seq::new(channels@.len(), |ch: int| channels@[ch]@.skip(frames as int)),
            io@ == Seq::new(
                channels@.len(),
                |ch: int| channels@[ch]@.subrange(0, frames as int),
            ),
    {
        StageIo { channels, frames }
    }

    /// Gives the buffers back: each is the block and what lay beyond it.
    pub fn into_channels(self) -> (channels: Vec<Vec<Sample>>)
        requires
            self.wf(),
        ensures
            channels@.len() == self@.len(),
            forall|ch: int|
                0 <= ch < channels@.len() ==> (#[trigger] channels@[ch])@.len()
                    == self.shape().1[ch] && channels@[ch]@ == self@[ch] + self.shape().2[ch],
    {
        assert forall|ch: int| 0 <= ch < self@.len() implies (#[trigger] self.channels@[ch])@
            == self@[ch] + self.shape().2[ch] by {
            assert(self.shape().1[ch] == self.channels@[ch]@.len());
        }
        self.channels
    }

    /// How many frames the block has.
    pub fn frames(&self) -> (n: usize)
        ensures
            n == self.length(),
    {
        self.frames
    }

    /// How many channels the block has.
    pub fn channel_count(&self) -> (n: usize)
        ensures
            n == self.shape().1.len(),
            n == self@.len(),
    {
        self.channels.len()
    }

    /// The samples of channel `index`.
    pub fn channel(&mut self, index: usize) -> (samples: &mut [Sample])
        requires
            old(self).wf(),
            index < old(self)@.len(),
        ensures
            samples@ == old(self)@[index as int],
            final(samples)@.len() == samples@.len() ==> final(self).shape() == old(self).shape()
                && final(self)@ == old(self)@.update(index as int, final(samples)@),
    {
        let frames: usize = self.frames;
        assert(self.shape().1[index as int] == self.channels@[index as int]@.len());
        let (head, tail) = self.channels[index].as_mut_slice().split_at_mut(frames);
        assert(final(head)@.len() == frames ==> (final(head)@ + tail@).subrange(0, frames as int)
            =~= final(head)@ && (final(head)@ + tail@).skip(frames as int) =~= tail@);
        head
    }

    /// The samples of channel `index`, for reading.
    pub fn samples(&self, index: usize) -> (samples: &[Sample])
        requires
            self.wf(),
            index < self@.len(),
        ensures
            samples@ == self@[index as int],
    {
        assert(self.shape().1[index as int] == self.channels@[index as int]@.len());
        slice_subrange(self.channels[index].as_slice(), 0, self.frames)
    }

    /// The sample of channel `index` at `frame`.
    pub fn get(&self, index: usize, frame: usize) -> (s: Sample)
        requires
            self.wf(),
            index < self@.len(),
            frame < self.length(),
        ensures
            s == self@[index as int][frame as int],
    {
        assert(self.shape().1[index as int] == self.channels@[index as int]@.len());
        self.channels[index][frame]
    }

    /// Replaces the sample of channel `index` at `frame`.
    pub fn set(&mut self, index: usize, frame: usize, s: Sample)
        requires
            old(self).wf(),
            index < old(self)@.len(),
            frame < old(self).length(),
        ensures
            final(self).shape() == old(self).shape(),
            final(self)@ == old(self)@.update(
                index as int,
                old(self)@[index as int].update(frame as int, s),
            ),
    {
        assert(self.shape().1[index as int] == self.channels@[index as int]@.len());
        self.channels[index][frame] = s;
        assert(self.shape().1 =~= old(self).shape().1);
        assert(self.shape().2[index as int] =~= old(self).shape().2[index as int]);
        assert(self.shape().2 =~= old(self).shape().2);
        assert(self@[index as int] =~= old(self)@[index as int].update(frame as int, s));
        assert(self@ =~= old(self)@.update(
            index as int,
            old(self)@[index as int].update(frame as int, s),
        ));
    }

    /// Makes `frames` frames of the buffers count. What they hold is left as it is.
    pub fn set_frames(&mut self, frames: usize)
        requires
            old(self).carries(frames as nat),
        ensures
            final(self).wf(),
            final(self).length() == frames,
            final(self).shape().1 == old(self).shape().1,
            old(self).length() == frames ==> *final(self) == *old(self),
            final(self)@.len() == old(self)@.len(),
            old(self).wf() ==> forall|ch: int|
                0 <= ch < old(self)@.len() ==> #[trigger] final(self)@[ch]
                    + final(self).shape().2[ch] == old(self)@[ch] + old(self).shape().2[ch],
            old(self).wf() ==> forall|ch: int, i: int|
                0 <= ch < old(self)@.len() && 0 <= i < frames && i < old(self).length()
                    ==> #[trigger] final(self)@[ch][i] == old(self)@[ch][i],
    {
        self.frames = frames;
        assert(self.shape().1 =~= old(self).shape().1);
        proof {
            if old(self).wf() {
                assert forall|ch: int| 0 <= ch < old(self)@.len() implies #[trigger] self@[ch]
                    + self.shape().2[ch] == old(self)@[ch] + old(self).shape().2[ch] by {
                    assert(old(self).shape().1[ch] == self.channels@[ch]@.len());
                    assert(self@[ch] + self.shape().2[ch] =~= self.channels@[ch]@);
                    assert(old(self)@[ch] + old(self).shape().2[ch] =~= self.channels@[ch]@);
                }
                assert forall|ch: int, i: int|
                    0 <= ch < old(self)@.len() && 0 <= i < frames && i
                        < old(self).length() implies #[trigger] self@[ch][i]
                    == old(self)@[ch][i] by {
                    assert(old(self).shape().1[ch] == self.channels@[ch]@.len());
                }
            }
        }
    }

    /// Overwrites the whole block with zeros.
    pub fn silence(&mut self)
        requires
            old(self).wf(),
        ensures
            final(self).shape() == old(self).shape(),
            final(self)@ == silent_block(old(self)@.len(), old(self).length()),
    {
        broadcast use StageIo::view_has_the_shape;

        let channels: usize = self.channel_count();
        let frames: usize = self.frames();
        let mut ch: usize = 0;
        while ch < channels
            invariant
                ch <= channels,
                channels == self@.len(),
                frames == self.length(),
                self.wf(),
                self.shape() == old(self).shape(),
                self@.len() == old(self)@.len(),
                forall|c: int|
                    0 <= c < ch ==> #[trigger] self@[c] == Seq::new(
                        frames as nat,
                        |i: int| Sample::zero(),
                    ),
            decreases channels - ch,
        {
            let mut i: usize = 0;
            proof {
                self.view_has_the_shape();
            }
            while i < frames
                invariant
                    i <= frames,
                    ch < channels,
                    channels == self@.len(),
                    frames == self.length(),
                    self.wf(),
                    self.shape() == old(self).shape(),
                    self@.len() == old(self)@.len(),
                    forall|c: int|
                        0 <= c < ch ==> #[trigger] self@[c] == Seq::new(
                            frames as nat,
                            |i: int| Sample::zero(),
                        ),
                    self@[ch as int].len() == frames,
                    forall|k: int|
                        0 <= k < i ==> #[trigger] self@[ch as int][k] == Sample::zero(),
                decreases frames - i,
            {
                self.set(ch, i, Sample::zero());
                i = i + 1;
            }
            assert(self@[ch as int] =~= Seq::new(frames as nat, |i: int| Sample::zero()));
            ch = ch + 1;
        }
        assert(self@ =~= silent_block(old(self)@.len(), old(self).length()));
    }

    /// Copies the first samples of `from` into channel `index`, as many as the block has frames.
    pub fn load(&mut self, index: usize, from: &Vec<Sample>)
        requires
            old(self).wf(),
            index < old(self)@.len(),
            old(self).length() <= from@.len(),
        ensures
            final(self).shape() == old(self).shape(),
            final(self)@ == old(self)@.update(
                index as int,
                from@.subrange(0, old(self).length() as int),
            ),
    {
        broadcast use StageIo::view_has_the_shape;

        let frames: usize = self.frames();
        let mut i: usize = 0;
        while i < frames
            invariant
                i <= frames,
                frames == self.length(),
                frames <= from@.len(),
                self.wf(),
                index < self@.len(),
                self.shape() == old(self).shape(),
                self@.len() == old(self)@.len(),
                self@[index as int].len() == frames,
                forall|c: int|
                    0 <= c < self@.len() && c != index ==> #[trigger] self@[c] == old(self)@[c],
                forall|k: int| 0 <= k < i ==> #[trigger] self@[index as int][k] == from@[k],
            decreases frames - i,
        {
            self.set(index, i, from[i]);
            i = i + 1;
        }
        assert(self@[index as int] =~= from@.subrange(0, old(self).length() as int));
        assert(self@ =~= old(self)@.update(
            index as int,
            from@.subrange(0, old(self).length() as int),
        ));
    }

    /// Copies the block `other` into the first channels, and takes over its frames. Any further
    /// channel keeps what it holds.
    pub fn copy_from(&mut self, other: &StageIo)
        requires
            other.wf(),
            old(self).carries(other.length()),
            other@.len() <= old(self)@.len(),
        ensures
            final(self).wf(),
            final(self).length() == other.length(),
            final(self).shape().1 == old(self).shape().1,
            old(self).length() == other.length() ==> final(self).shape() == old(self).shape(),
            final(self)@.len() == old(self)@.len(),
            forall|ch: int| 0 <= ch < other@.len() ==> #[trigger] final(self)@[ch] == other@[ch],
            old(self).wf() ==> forall|ch: int, i: int|
                other@.len() <= ch < old(self)@.len() && 0 <= i < other.length()
                    && i < old(self).length()
                    ==> #[trigger] final(self)@[ch][i] == old(self)@[ch][i],
    {
        broadcast use StageIo::view_has_the_shape;

        let frames: usize = other.frames();
        let channels: usize = other.channel_count();
        self.set_frames(frames);
        let ghost shape = self.shape();
        let ghost framed = self@;
        let mut ch: usize = 0;
        while ch < channels
            invariant
                ch <= channels,
                channels == other@.len(),
                channels <= self@.len(),
                frames == other.length(),
                other.wf(),
                self.wf(),
                self.shape() == shape,
                shape.0 == other.length(),
                shape.1 == old(self).shape().1,
                self@.len() == old(self)@.len(),
                forall|c: int| 0 <= c < ch ==> #[trigger] self@[c] == other@[c],
                forall|c: int| ch <= c < self@.len() ==> #[trigger] self@[c] == framed[c],
            decreases channels - ch,
        {
            let mut i: usize = 0;
            proof {
                self.view_has_the_shape();
                other.view_has_the_shape();
            }
            while i < frames
                invariant
                    i <= frames,
                    ch < channels,
                    channels == other@.len(),
                    channels <= self@.len(),
                    frames == other.length(),
                    frames == self.length(),
                    other.wf(),
                    self.wf(),
                    self.shape() == shape,
                    self@.len() == old(self)@.len(),
                    self@[ch as int].len() == frames,
                    other@[ch as int].len() == frames,
                    forall|c: int| 0 <= c < ch ==> #[trigger] self@[c] == other@[c],
                    forall|c: int| ch < c < self@.len() ==> #[trigger] self@[c] == framed[c],
                    forall|k: int|
                        0 <= k < i ==> #[trigger] self@[ch as int][k] == other@[ch as int][k],
                decreases frames - i,
            {
                self.set(ch, i, other.get(ch, i));
                i = i + 1;
            }
            assert(self@[ch as int] =~= other@[ch as int]);
            ch = ch + 1;
        }
    }

    /// Copies channel `from` over channel `to`.
    pub fn duplicate(&mut self, from: usize, to: usize)
        requires
            old(self).wf(),
            from < old(self)@.len(),
            to < old(self)@.len(),
        ensures
            final(self).shape() == old(self).shape(),
            final(self)@ == old(self)@.update(to as int, old(self)@[from as int]),
    {
        broadcast use StageIo::view_has_the_shape;

        let frames: usize = self.frames();
        proof {
            self.view_has_the_shape();
        }
        let mut i: usize = 0;
        while i < frames
            invariant
                i <= frames,
                frames == self.length(),
                self.wf(),
                from < self@.len(),
                to < self@.len(),
                self.shape() == old(self).shape(),
                self@.len() == old(self)@.len(),
                self@[to as int].len() == frames,
                old(self)@[from as int].len() == frames,
                forall|c: int|
                    0 <= c < self@.len() && c != to ==> #[trigger] self@[c] == old(self)@[c],
                from == to ==> self@ == old(self)@,
                forall|k: int|
                    0 <= k < i ==> #[trigger] self@[to as int][k] == old(self)@[from as int][k],
            decreases frames - i,
        {
            let sample: Sample = self.get(from, i);
            self.set(to, i, sample);
            i = i + 1;
            if from == to {
                assert(self@ =~= old(self)@) by {
                    assert(self@[to as int] =~= old(self)@[to as int]);
                }
            }
        }
        assert(self@[to as int] =~= old(self)@[from as int]);
        assert(self@ =~= old(self)@.update(to as int, old(self)@[from as int]));
    }

    /// Copies channel `from` of `other` over channel `to`. Both blocks have the same frames.
    pub fn copy_channel(&mut self, to: usize, other: &StageIo, from: usize)
        requires
            old(self).wf(),
            other.wf(),
            other.length() == old(self).length(),
            to < old(self)@.len(),
            from < other@.len(),
        ensures
            final(self).shape() == old(self).shape(),
            final(self)@ == old(self)@.update(to as int, other@[from as int]),
    {
        broadcast use StageIo::view_has_the_shape;

        let frames: usize = self.frames();
        proof {
            self.view_has_the_shape();
            other.view_has_the_shape();
        }
        let mut i: usize = 0;
        while i < frames
            invariant
                i <= frames,
                frames == self.length(),
                frames == other.length(),
                self.wf(),
                other.wf(),
                from < other@.len(),
                to < self@.len(),
                self.shape() == old(self).shape(),
                self@.len() == old(self)@.len(),
                self@[to as int].len() == frames,
                other@[from as int].len() == frames,
                forall|c: int|
                    0 <= c < self@.len() && c != to ==> #[trigger] self@[c] == old(self)@[c],
                forall|k: int|
                    0 <= k < i ==> #[trigger] self@[to as int][k] == other@[from as int][k],
            decreases frames - i,
        {
            self.set(to, i, other.get(from, i));
            i = i + 1;
        }
        assert(self@[to as int] =~= other@[from as int]);
        assert(self@ =~= old(self)@.update(to as int, other@[from as int]));
    }

    /// A block of `channels` channels with room for `frames` frames, all zeros.
    pub fn zeroed(channels: usize, frames: usize) -> (io: StageIo)
        ensures
            io.wf(),
            io.length() == frames,
            io.shape().1 == Seq::new(channels as nat, |ch: int| frames as nat),
            io@ == silent_block(channels as nat, frames as nat),
    {
        let mut buffers: Vec<Vec<Sample>> = Vec::new();
        let mut ch: usize = 0;
        while ch < channels
            invariant
                ch <= channels,
                buffers@.len() == ch,
                forall|c: int|
                    0 <= c < ch ==> (#[trigger] buffers@[c])@ == Seq::new(
                        frames as nat,
                        |i: int| Sample::zero(),
                    ),
            decreases channels - ch,
        {
            let buffer: Vec<Sample> = vec![Sample::zero(); frames];
            assert(buffer@ =~= Seq::new(frames as nat, |i: int| Sample::zero()));
            buffers.push(buffer);
            ch = ch + 1;
        }
        let io = StageIo::new(buffers, frames);
        proof {
            assert(io.shape().1 =~= Seq::new(channels as nat, |ch: int| frames as nat));
            assert forall|c: int| 0 <= c < channels implies #[trigger] io@[c] == Seq::new(
                frames as nat,
                |i: int| Sample::zero(),
            ) by {
                assert(buffers@[c]@.subrange(0, frames as int) =~= buffers@[c]@);
            }
            assert(io@ =~= silent_block(channels as nat, frames as nat));
        }
        io
    }
}

} // verus!
