//! What the client demands of the devices at either end of a stream.
use crate::stream_config::{SampleFormat, StreamConfig};
use vstd::prelude::*;

verus! {

/// Whether a configuration is one the client plays to: two channels of
/// `f32` or `i32`.
pub open spec fn output_acceptable(cfg: StreamConfig) -> bool {
    cfg.channels == 2 && (cfg.sample_format == SampleFormat::F32 || cfg.sample_format
        == SampleFormat::I32)
}

/// Whether a configuration is one the client records from: at most two
/// channels of `f32` or `i32`.
pub open spec fn input_acceptable(cfg: StreamConfig) -> bool {
    cfg.channels <= 2 && (cfg.sample_format == SampleFormat::F32 || cfg.sample_format
        == SampleFormat::I32)
}

/// Only stereo devices of `f32` or `i32` samples are accepted for output;
/// any other channel count is refused.
pub proof fn lemma_output_acceptable_law(cfg: StreamConfig)
    ensures
        output_acceptable(cfg) ==> cfg.channels == 2,
        output_acceptable(cfg) <==> (cfg.channels == 2 && (cfg.sample_format == SampleFormat::F32
            || cfg.sample_format == SampleFormat::I32)),
{
}

/// Only mono or stereo devices (at most two channels) of `f32` or `i32`
/// samples are accepted for input.
pub proof fn lemma_input_acceptable_law(cfg: StreamConfig)
    ensures
        input_acceptable(cfg) ==> cfg.channels <= 2,
        input_acceptable(cfg) <==> (cfg.channels <= 2 && (cfg.sample_format == SampleFormat::F32
            || cfg.sample_format == SampleFormat::I32)),
{
}

/// The client end of the program.
pub struct Client {}

impl Client {
    /// Whether an output device, here or at the server, may play the stream.
    pub fn output_supported(cfg: &StreamConfig) -> (b: bool)
        ensures
            b == output_acceptable(*cfg),
            b ==> cfg.channels == 2,
            b <==> (cfg.channels == 2 && (cfg.sample_format == SampleFormat::F32
                || cfg.sample_format == SampleFormat::I32)),
    {
        cfg.channels == 2 && (cfg.sample_format == SampleFormat::F32 || cfg.sample_format
            == SampleFormat::I32)
    }

    /// Whether an input device, here or at the server, may feed the stream.
    pub fn input_supported(cfg: &StreamConfig) -> (b: bool)
        ensures
            b == input_acceptable(*cfg),
            b ==> cfg.channels <= 2,
            b <==> (cfg.channels <= 2 && (cfg.sample_format == SampleFormat::F32
                || cfg.sample_format == SampleFormat::I32)),
    {
        cfg.channels <= 2 && (cfg.sample_format == SampleFormat::F32 || cfg.sample_format
            == SampleFormat::I32)
    }
}

} // verus!
