//! What a chain is prepared for: sample rate, block size and channel layout.

use vstd::prelude::*;

verus! {

/// A sample rate in hertz, never zero.
#[derive(Debug, Clone, Copy, PartialEq, Eq, Structural)]
pub struct SampleRate {
    pub hz: u32,
}

impl SampleRate {
    pub open spec fn wf(self) -> bool {
        self.hz > 0
    }

    pub fn new(hz: u32) -> (r: Option<SampleRate>)
        ensures
            r == (if hz > 0 {
                Some(SampleRate { hz })
            } else {
                None
            }),
    {
        if hz > 0 {
            Some(SampleRate { hz })
        } else {
            None
        }
    }
}

/// How many channels come in and go out.
#[derive(Debug, Clone, Copy, PartialEq, Eq, Structural)]
pub enum ChannelConfig {
    Mono,
    MonoToStereo,
    Stereo,
}

impl ChannelConfig {
    pub open spec fn outputs(self) -> nat {
        match self {
            ChannelConfig::Mono => 1,
            ChannelConfig::MonoToStereo => 2,
            ChannelConfig::Stereo => 2,
        }
    }

    pub fn output_channels(self) -> (n: usize)
        ensures
            n == self.outputs(),
    {
        match self {
            ChannelConfig::Mono => 1,
            ChannelConfig::MonoToStereo => 2,
            ChannelConfig::Stereo => 2,
        }
    }
}

/// The figures every stage of one chain is prepared with.
#[derive(Debug, Clone, Copy, PartialEq, Eq, Structural)]
pub struct PrepareContext {
    pub sample_rate: SampleRate,
    pub max_block_size: usize,
    pub channel_config: ChannelConfig,
}

impl PrepareContext {
    pub open spec fn wf(self) -> bool {
        self.sample_rate.wf()
    }

    /// How many channels a stage prepared with these figures runs.
    pub open spec fn channels(self) -> nat {
        self.channel_config.outputs()
    }
}

/// A chain has one channel where it is mono throughout, and two otherwise.
pub proof fn lemma_a_chain_is_mono_or_stereo(ctx: PrepareContext)
    ensures
        ctx.channels() == 1 <==> ctx.channel_config == ChannelConfig::Mono,
        ctx.channels() == 2 <==> ctx.channel_config != ChannelConfig::Mono,
{
}

} // verus!
