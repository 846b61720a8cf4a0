//! What a chain and its stages are prepared for.

use vstd::prelude::*;

use crate::error_codes::{max_block_size_zero, ErrorCode, Severity};

verus! {

/// A sample rate in hertz. Never zero.
#[derive(Clone, Copy, Debug, PartialEq, Eq, Structural)]
pub struct SampleRate {
    hz: u32,
}

impl SampleRate {
    #[verifier::type_invariant]
    spec fn positive(self) -> bool {
        self.hz >= 1
    }

    /// The rate in hertz.
    pub closed spec fn rate(self) -> u32 {
        self.hz
    }

    /// A rate of `hz` hertz, unless `hz` is zero.
    pub fn new(hz: u32) -> (rate: Option<SampleRate>)
        ensures
            rate is Some <==> hz > 0,
            rate matches Some(r) ==> r.rate() == hz,
    {
        if hz == 0 {
            None
        } else {
            Some(SampleRate { hz })
        }
    }

    /// The rate in hertz.
    pub fn hz(self) -> (hz: u32)
        ensures
            hz == self.rate(),
            hz >= 1,
    {
        proof {
            use_type_invariant(&self);
        }
        self.hz
    }
}

/// The channel layouts a chain can run in.
#[derive(Clone, Copy, Debug, PartialEq, Eq, Structural)]
pub enum ChannelConfig {
    /// One channel in, one out.
    Mono,
    /// One channel in, two out.
    MonoToStereo,
    /// Two channels in, two out.
    Stereo,
}

impl ChannelConfig {
    /// How many channels a block has in this layout.
    pub open spec fn outputs(self) -> nat {
        match self {
            ChannelConfig::Mono => 1,
            ChannelConfig::MonoToStereo => 2,
            ChannelConfig::Stereo => 2,
        }
    }

    /// How many channels a block has in this layout.
    pub fn output_channels(self) -> (n: usize)
        ensures
            n == self.outputs(),
            1 <= n <= 2,
    {
        match self {
            ChannelConfig::Mono => 1,
            ChannelConfig::MonoToStereo => 2,
            ChannelConfig::Stereo => 2,
        }
    }
}

/// Everything a stage needs to size its own buffers once, up front: the engine's sample rate, the
/// largest block it will be handed, and the channel layout.
#[derive(Clone, Copy, Debug, PartialEq, Eq, Structural)]
pub struct PrepareContext {
    sample_rate: SampleRate,
    max_block_size: usize,
    channel_config: ChannelConfig,
}

impl PrepareContext {
    #[verifier::type_invariant]
    spec fn sized(self) -> bool {
        self.max_block_size >= 1
    }

    /// The engine's sample rate in hertz.
    pub closed spec fn rate(self) -> u32 {
        self.sample_rate.rate()
    }

    /// The largest number of frames a block may have.
    pub closed spec fn max_frames(self) -> usize {
        self.max_block_size
    }

    /// The channel layout.
    pub closed spec fn layout(self) -> ChannelConfig {
        self.channel_config
    }

    /// How many channels every block has.
    pub open spec fn channels(self) -> nat {
        self.layout().outputs()
    }

    /// Records what to prepare for. A zero `max_block_size` is rejected here, once, rather than in
    /// every stage that sizes a buffer to it.
    pub fn new(
        sample_rate: SampleRate,
        max_block_size: usize,
        channel_config: ChannelConfig,
    ) -> (ctx: Result<PrepareContext, PrepareError>)
        ensures
            ctx is Ok <==> max_block_size > 0,
            ctx matches Ok(c) ==> c.rate() == sample_rate.rate() && c.max_frames() == max_block_size
                && c.layout() == channel_config,
            ctx matches Err(e) ==> e.code.id@ == "engine.prepare.max_block_size_zero"@
                && e.code.severity == Severity::Error && e.code.message_template@
                == "Maximum block size must be greater than zero."@,
    {
        if max_block_size == 0 {
            return Err(PrepareError { code: max_block_size_zero() });
        }
        Ok(PrepareContext { sample_rate, max_block_size, channel_config })
    }

    /// The engine's sample rate.
    pub fn sample_rate(&self) -> (rate: SampleRate)
        ensures
            rate.rate() == self.rate(),
    {
        self.sample_rate
    }

    /// The largest number of frames a block may have.
    pub fn max_block_size(&self) -> (frames: usize)
        ensures
            frames == self.max_frames(),
            frames >= 1,
    {
        proof {
            use_type_invariant(self);
        }
        self.max_block_size
    }

    /// The channel layout.
    pub fn channel_config(&self) -> (config: ChannelConfig)
        ensures
            config == self.layout(),
    {
        self.channel_config
    }
}

/// Two contexts that agree on rate, block size and layout are the same context.
pub proof fn context_is_its_three_figures(a: PrepareContext, b: PrepareContext)
    requires
        a.rate() == b.rate(),
        a.max_frames() == b.max_frames(),
        a.layout() == b.layout(),
    ensures
        a == b,
{
}

/// Why a preparation failed: one entry of the error catalogue.
#[derive(Clone, Copy, Debug, PartialEq, Eq)]
pub struct PrepareError {
    /// The catalogue entry.
    pub code: ErrorCode,
}

impl PrepareError {
    /// What the failure reads like: the entry's id, a colon and a space, and its message.
    pub fn message(&self) -> (text: String)
        ensures
            text@ == self.code.id@ + ": "@ + self.code.message_template@,
    {
        let id: String = self.code.id.to_string();
        let separated: String = id.concat(": ");
        separated.concat(self.code.message_template)
    }
}

} // verus!
