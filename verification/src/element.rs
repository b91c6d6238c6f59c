//! Substream layout of one audio element.

use vstd::prelude::*;

use crate::descriptors::{AudioElementConfig, ChannelAudioLayer, SpecAudioElementConfig};

verus! {

/// Channel counts of a stream group of `substreams` substreams, of which
/// the first `coupled` are coupled (stereo).
pub open spec fn spec_group(substreams: u8, coupled: u8) -> Seq<u8> {
    Seq::new(substreams as nat, |i: int| if i < coupled { 2u8 } else { 1u8 })
}

/// Channel counts of the substreams of the first `n` layers.
pub open spec fn spec_layers_channels(layers: Seq<ChannelAudioLayer>, n: nat) -> Seq<u8>
    decreases n,
{
    if n == 0 {
        Seq::empty()
    } else {
        spec_layers_channels(layers, (n - 1) as nat) + spec_group(
            layers[n - 1].substream_count,
            layers[n - 1].coupled_substream_count,
        )
    }
}

/// Channel count of each substream of an element, in `substream_ids`
/// order: coupled substreams (2 channels) come first within each layer /
/// stream group, the rest are mono; mono-mode ambisonics substreams are all
/// mono.
pub open spec fn spec_substream_channels(config: SpecAudioElementConfig) -> Seq<u8> {
    match config {
        SpecAudioElementConfig::ChannelBased { layers } => spec_layers_channels(layers, layers.len()),
        SpecAudioElementConfig::AmbisonicsMono { substream_count, .. } => spec_group(substream_count, 0),
        SpecAudioElementConfig::AmbisonicsProjection { substream_count, coupled_substream_count, .. } => spec_group(
            substream_count,
            coupled_substream_count,
        ),
    }
}

fn push_group(out: &mut Vec<u8>, substreams: u8, coupled: u8)
    ensures
        final(out)@ == old(out)@ + spec_group(substreams, coupled),
{
    let ghost start = out@;
    let mut i: u8 = 0;
    while i < substreams
        invariant
            i <= substreams,
            out@ == start + spec_group(i, coupled),
        decreases substreams - i,
    {
        let ghost before = out@;
        out.push(if i < coupled { 2 } else { 1 });
        assert(out@ =~= start + spec_group((i + 1) as u8, coupled)) by {
            assert(spec_group((i + 1) as u8, coupled) =~= spec_group(i, coupled).push(if i < coupled { 2u8 } else { 1u8 }));
        }
        i = i + 1;
    }
}

/// Channel count of each substream of an element, in `substream_ids` order.
/// Coupled substreams (stereo) come first within each layer / stream group
///: a group with `substream_count` streams of which
/// `coupled_substream_count` are coupled carries
/// `substream_count + coupled_substream_count` channels.
pub fn substream_channels(config: &AudioElementConfig) -> (chs: Vec<u8>)
    ensures
        chs@ == spec_substream_channels(config@),
{
    let mut out: Vec<u8> = Vec::new();
    match config {
        AudioElementConfig::ChannelBased { layers } => {
            let mut j: usize = 0;
            while j < layers.len()
                invariant
                    j <= layers@.len(),
                    out@ == spec_layers_channels(layers@, j as nat),
                decreases layers.len() - j,
            {
                push_group(&mut out, layers[j].substream_count, layers[j].coupled_substream_count);
                j = j + 1;
            }
        },
        AudioElementConfig::AmbisonicsMono { substream_count, .. } => {
            push_group(&mut out, *substream_count, 0);
        },
        AudioElementConfig::AmbisonicsProjection { substream_count, coupled_substream_count, .. } => {
            push_group(&mut out, *substream_count, *coupled_substream_count);
        },
    }
    assert(out@ =~= spec_substream_channels(config@));
    out
}

/// One decoded frame of a substream: its samples (interleaved when the
/// substream is coupled) and the trimming its OBU carried.
pub struct FramePcm<S> {
    pub samples: Vec<S>,
    pub trim_start: u32,
    pub trim_end: u32,
}

} // verus!
