//! Descriptions of IQ sources: metadata of a finite recording, and the wire
//! layout of one sample of a live stream.

use vstd::prelude::*;

verus! {

/// Metadata about an IQ source.
#[derive(Debug, Clone, Copy)]
pub struct IqMetadata {
    pub sample_rate: u32,
    /// Total samples of a finite recording; a live stream has none.
    pub total_samples: Option<usize>,
}

/// Binary layout of one raw stream sample: I immediately followed by Q,
/// little-endian, in one of four encodings.
#[derive(Debug, Clone, Copy, PartialEq, Eq, Structural)]
pub enum StreamFormat {
    Int8,
    Int16,
    Int32,
    Float32,
}

impl StreamFormat {
    /// Bytes one IQ sample occupies on the wire, I and Q together.
    pub open spec fn bytes_per_sample_spec(self) -> usize {
        match self {
            StreamFormat::Int8 => 2,
            StreamFormat::Int16 => 4,
            StreamFormat::Int32 => 8,
            StreamFormat::Float32 => 8,
        }
    }

    /// Bytes one IQ sample occupies on the wire, I and Q together.
    pub fn bytes_per_sample(&self) -> (r: usize)
        ensures
            r == self.bytes_per_sample_spec(),
    {
        match self {
            StreamFormat::Int8 => 2,
            StreamFormat::Int16 => 4,
            StreamFormat::Int32 => 8,
            StreamFormat::Float32 => 8,
        }
    }
}

} // verus!
