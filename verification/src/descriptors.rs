//! Descriptor OBU payloads: IA sequence header, codec config, audio element,
//! and mix presentation.
//!
//! Syntax targets IAMF v1.1. Fields added by later spec revisions arrive
//! inside sized extension regions, which are skipped rather than rejected.

use vstd::prelude::*;
use vstd::slice::slice_to_vec;

use crate::error::Error;
use crate::obu::{Obu, ObuType, SpecObu};
use crate::reader::{
    agrees, eof, i16_item, leb128_item, lemma_list_err_extends, spec_bounded_list, spec_list,
    spec_read_bytes, spec_read_i16_be, spec_read_leb128, spec_read_string, spec_read_u16_be,
    spec_read_u32_be, spec_read_u8, string_item, view_res, views, be32, ByteReader, SpecResult,
};

verus! {

pub open spec fn invalid_at<T>(pos: int) -> SpecResult<T> {
    Err(Error::InvalidDescriptor { offset: pos as usize })
}

fn invalid(r: &ByteReader<'_>) -> (e: Error)
    ensures
        e == (Error::InvalidDescriptor { offset: r.cursor() as usize }),
{
    Error::InvalidDescriptor { offset: r.position() }
}

// ---------------------------------------------------------------------------
// IA sequence header
// ---------------------------------------------------------------------------

#[derive(Debug, Clone, Copy, PartialEq, Eq, Structural)]
pub struct SequenceHeader {
    pub primary_profile: u8,
    pub additional_profile: u8,
}

/// "iamf"
pub open spec fn iamf_tag() -> Seq<u8> {
    seq![0x69u8, 0x61u8, 0x6du8, 0x66u8]
}

/// `ia_code` "iamf", then the primary and additional profile bytes.
pub open spec fn spec_sequence_header(s: Seq<u8>, pos: int) -> SpecResult<SequenceHeader> {
    match spec_read_bytes(s, pos, 4) {
        Err(e) => Err(e),
        Ok((tag, p)) => if tag != iamf_tag() {
            invalid_at(p)
        } else {
            match spec_read_u8(s, p) {
                Err(e) => Err(e),
                Ok((primary, q)) => match spec_read_u8(s, q) {
                    Err(e) => Err(e),
                    Ok((additional, r)) => Ok(
                        (SequenceHeader { primary_profile: primary, additional_profile: additional }, r),
                    ),
                },
            }
        },
    }
}

impl SequenceHeader {
    pub fn parse(r: &mut ByteReader<'_>) -> (res: Result<Self, Error>)
        ensures
            final(r).input() == old(r).input(),
            final(r).cursor() <= final(r).input().len(),
            agrees(res, final(r).cursor(), spec_sequence_header(old(r).input(), old(r).cursor())),
    {
        let tag = r.read_fourcc()?;
        if !(tag[0] == 0x69 && tag[1] == 0x61 && tag[2] == 0x6d && tag[3] == 0x66) {
            proof {
                if tag@ == iamf_tag() {
                    assert(tag@[0] == 0x69);
                }
            }
            return Err(invalid(r));
        }
        assert(tag@ =~= iamf_tag());
        let primary_profile = r.read_u8()?;
        let additional_profile = r.read_u8()?;
        Ok(SequenceHeader { primary_profile, additional_profile })
    }
}

// ---------------------------------------------------------------------------
// Codec config
// ---------------------------------------------------------------------------

#[derive(Debug, Clone, Copy, PartialEq, Eq)]
pub enum CodecId {
    Opus,
    AacLc,
    Flac,
    Lpcm,
    Unknown([u8; 4]),
}

/// A codec id as values.
pub enum SpecCodecId {
    Opus,
    AacLc,
    Flac,
    Lpcm,
    Unknown(Seq<u8>),
}

impl View for CodecId {
    type V = SpecCodecId;

    open spec fn view(&self) -> SpecCodecId {
        match self {
            CodecId::Opus => SpecCodecId::Opus,
            CodecId::AacLc => SpecCodecId::AacLc,
            CodecId::Flac => SpecCodecId::Flac,
            CodecId::Lpcm => SpecCodecId::Lpcm,
            CodecId::Unknown(f) => SpecCodecId::Unknown(f@),
        }
    }
}

/// The codec a 4CC names: "Opus", "mp4a" (AAC-LC), "fLaC", "ipcm".
pub open spec fn spec_codec_id(f: Seq<u8>) -> SpecCodecId {
    if f == seq![0x4fu8, 0x70u8, 0x75u8, 0x73u8] {
        SpecCodecId::Opus
    } else if f == seq![0x6du8, 0x70u8, 0x34u8, 0x61u8] {
        SpecCodecId::AacLc
    } else if f == seq![0x66u8, 0x4cu8, 0x61u8, 0x43u8] {
        SpecCodecId::Flac
    } else if f == seq![0x69u8, 0x70u8, 0x63u8, 0x6du8] {
        SpecCodecId::Lpcm
    } else {
        SpecCodecId::Unknown(f)
    }
}

fn fourcc_is(f: &[u8; 4], a: u8, b: u8, c: u8, d: u8) -> (res: bool)
    ensures
        res == (f@ == seq![a, b, c, d]),
{
    let res = f[0] == a && f[1] == b && f[2] == c && f[3] == d;
    proof {
        if f@ == seq![a, b, c, d] {
            assert(f@[0] == a && f@[1] == b && f@[2] == c && f@[3] == d);
        }
        if res {
            assert(f@ =~= seq![a, b, c, d]);
        }
    }
    res
}

impl CodecId {
    pub fn from_fourcc(fourcc: [u8; 4]) -> (id: Self)
        ensures
            id@ == spec_codec_id(fourcc@),
    {
        if fourcc_is(&fourcc, 0x4f, 0x70, 0x75, 0x73) {
            CodecId::Opus
        } else if fourcc_is(&fourcc, 0x6d, 0x70, 0x34, 0x61) {
            CodecId::AacLc
        } else if fourcc_is(&fourcc, 0x66, 0x4c, 0x61, 0x43) {
            CodecId::Flac
        } else if fourcc_is(&fourcc, 0x69, 0x70, 0x63, 0x6d) {
            CodecId::Lpcm
        } else {
            CodecId::Unknown(fourcc)
        }
    }
}

/// Codec-specific decoder config.
#[derive(Debug, Clone, PartialEq, Eq)]
pub enum DecoderConfig {
    /// OpusHead-equivalent fields, but big-endian.
    Opus {
        version: u8,
        output_channel_count: u8,
        pre_skip: u16,
        input_sample_rate: u32,
        output_gain: i16,
        mapping_family: u8,
    },
    /// Fields from the FLAC STREAMINFO metadata block, plus the
    /// raw block body for codec initialization.
    Flac { sample_rate: u32, bits_per_sample: u8, streaminfo: Vec<u8> },
    /// Integer PCM: byte order, sample size and sample rate.
    Lpcm { little_endian: bool, sample_size: u8, sample_rate: u32 },
    /// The AudioSpecificConfig extracted from the
    /// DecoderConfigDescriptor, for codec initialization.
    AacLc { audio_specific_config: Vec<u8> },
    Unknown(Vec<u8>),
}

/// A decoder config as values.
pub enum SpecDecoderConfig {
    Opus {
        version: u8,
        output_channel_count: u8,
        pre_skip: u16,
        input_sample_rate: u32,
        output_gain: i16,
        mapping_family: u8,
    },
    Flac { sample_rate: u32, bits_per_sample: u8, streaminfo: Seq<u8> },
    Lpcm { little_endian: bool, sample_size: u8, sample_rate: u32 },
    AacLc { audio_specific_config: Seq<u8> },
    Unknown(Seq<u8>),
}

impl View for DecoderConfig {
    type V = SpecDecoderConfig;

    open spec fn view(&self) -> SpecDecoderConfig {
        match self {
            DecoderConfig::Opus {
                version,
                output_channel_count,
                pre_skip,
                input_sample_rate,
                output_gain,
                mapping_family,
            } => SpecDecoderConfig::Opus {
                version: *version,
                output_channel_count: *output_channel_count,
                pre_skip: *pre_skip,
                input_sample_rate: *input_sample_rate,
                output_gain: *output_gain,
                mapping_family: *mapping_family,
            },
            DecoderConfig::Flac { sample_rate, bits_per_sample, streaminfo } => SpecDecoderConfig::Flac {
                sample_rate: *sample_rate,
                bits_per_sample: *bits_per_sample,
                streaminfo: streaminfo@,
            },
            DecoderConfig::Lpcm { little_endian, sample_size, sample_rate } => SpecDecoderConfig::Lpcm {
                little_endian: *little_endian,
                sample_size: *sample_size,
                sample_rate: *sample_rate,
            },
            DecoderConfig::AacLc { audio_specific_config } => SpecDecoderConfig::AacLc {
                audio_specific_config: audio_specific_config@,
            },
            DecoderConfig::Unknown(b) => SpecDecoderConfig::Unknown(b@),
        }
    }
}

#[derive(Debug, Clone, PartialEq, Eq)]
pub struct CodecConfig {
    pub codec_config_id: u32,
    pub codec_id: CodecId,
    pub num_samples_per_frame: u32,
    pub audio_roll_distance: i16,
    pub decoder_config: DecoderConfig,
}

/// A codec config as values.
pub struct SpecCodecConfig {
    pub codec_config_id: u32,
    pub codec_id: SpecCodecId,
    pub num_samples_per_frame: u32,
    pub audio_roll_distance: i16,
    pub decoder_config: SpecDecoderConfig,
}

impl View for CodecConfig {
    type V = SpecCodecConfig;

    open spec fn view(&self) -> SpecCodecConfig {
        SpecCodecConfig {
            codec_config_id: self.codec_config_id,
            codec_id: self.codec_id@,
            num_samples_per_frame: self.num_samples_per_frame,
            audio_roll_distance: self.audio_roll_distance,
            decoder_config: self.decoder_config@,
        }
    }
}

/// Opus decoder config: version, channel count, pre-skip (u16),
/// input sample rate (u32), output gain (i16), mapping family.
pub open spec fn spec_opus_config(s: Seq<u8>, pos: int) -> SpecResult<SpecDecoderConfig> {
    match spec_read_u8(s, pos) {
        Err(e) => Err(e),
        Ok((version, p1)) => match spec_read_u8(s, p1) {
            Err(e) => Err(e),
            Ok((output_channel_count, p2)) => match spec_read_u16_be(s, p2) {
                Err(e) => Err(e),
                Ok((pre_skip, p3)) => match spec_read_u32_be(s, p3) {
                    Err(e) => Err(e),
                    Ok((input_sample_rate, p4)) => match spec_read_i16_be(s, p4) {
                        Err(e) => Err(e),
                        Ok((output_gain, p5)) => match spec_read_u8(s, p5) {
                            Err(e) => Err(e),
                            Ok((mapping_family, p6)) => Ok(
                                (
                                    SpecDecoderConfig::Opus {
                                        version,
                                        output_channel_count,
                                        pre_skip,
                                        input_sample_rate,
                                        output_gain,
                                        mapping_family,
                                    },
                                    p6,
                                ),
                            ),
                        },
                    },
                },
            },
        },
    }
}

/// LPCM decoder config: format flags (bit 0: little endian),
/// sample size, sample rate.
pub open spec fn spec_lpcm_config(s: Seq<u8>, pos: int) -> SpecResult<SpecDecoderConfig> {
    match spec_read_u8(s, pos) {
        Err(e) => Err(e),
        Ok((flags, p1)) => match spec_read_u8(s, p1) {
            Err(e) => Err(e),
            Ok((sample_size, p2)) => match spec_read_u32_be(s, p2) {
                Err(e) => Err(e),
                Ok((sample_rate, p3)) => Ok(
                    (SpecDecoderConfig::Lpcm { little_endian: flags & 0x01 != 0, sample_size, sample_rate }, p3),
                ),
            },
        },
    }
}

/// The STREAMINFO fields: sample rate (20 bits) and bits per sample
/// (5 bits, minus one) from the big-endian word at bytes 10..14.
pub open spec fn flac_config_of(streaminfo: Seq<u8>) -> SpecDecoderConfig {
    let packed = be32(streaminfo.subrange(10, 14));
    SpecDecoderConfig::Flac {
        sample_rate: packed >> 12u32 & 0xf_ffff,
        bits_per_sample: ((packed >> 4u32 & 0x1f) + 1) as u8,
        streaminfo,
    }
}

/// Walks FLAC metadata blocks (32-bit header: last flag, 7-bit type,
/// 24-bit length) to the STREAMINFO block (type 0), which must hold at
/// least 18 bytes; running past the last block is invalid.
pub open spec fn spec_flac_streaminfo(s: Seq<u8>, pos: int) -> SpecResult<SpecDecoderConfig>
    decreases s.len() - pos,
{
    match spec_read_u32_be(s, pos) {
        Err(e) => Err(e),
        Ok((header, p)) => {
            let last = header >> 31u32 & 0x1 != 0;
            let block_type = header >> 24u32 & 0x7f;
            let length = (header & 0xff_ffff) as int;
            if block_type == 0 {
                match spec_read_bytes(s, p, length) {
                    Err(e) => Err(e),
                    Ok((streaminfo, q)) => if streaminfo.len() < 18 {
                        invalid_at(q)
                    } else {
                        Ok((flac_config_of(streaminfo), q))
                    },
                }
            } else {
                match spec_read_bytes(s, p, length) {
                    Err(e) => Err(e),
                    Ok((_, q)) => if last {
                        invalid_at(q)
                    } else {
                        spec_flac_streaminfo(s, q)
                    },
                }
            }
        },
    }
}

/// An ISO/IEC 14496-1 expandable length: up to 4 bytes of 7 bits, high
/// bit set on all but the last; `acc` is the value so far, `i` the bytes
/// read.
pub open spec fn spec_expandable(s: Seq<u8>, pos: int, i: nat, acc: nat) -> SpecResult<nat>
    decreases 4 - i,
{
    if i >= 4 {
        Ok((acc, pos))
    } else {
        match spec_read_u8(s, pos) {
            Err(e) => Err(e),
            Ok((byte, p)) => {
                let acc2 = acc * 128 + (byte % 128) as nat;
                if byte < 128 {
                    Ok((acc2, p))
                } else {
                    spec_expandable(s, p, i + 1, acc2)
                }
            },
        }
    }
}

/// A DecoderConfigDescriptor (tag 0x04, expandable size, 13 fixed
/// bytes) holding a DecSpecificInfo (tag 0x05, expandable size) whose body
/// is the AudioSpecificConfig.
pub open spec fn spec_aac_config(s: Seq<u8>, pos: int) -> SpecResult<SpecDecoderConfig> {
    match spec_read_u8(s, pos) {
        Err(e) => Err(e),
        Ok((tag, p1)) => if tag != 0x04 {
            invalid_at(p1)
        } else {
            match spec_expandable(s, p1, 0, 0) {
                Err(e) => Err(e),
                Ok((_, p2)) => match spec_read_bytes(s, p2, 13) {
                    Err(e) => Err(e),
                    Ok((_, p3)) => match spec_read_u8(s, p3) {
                        Err(e) => Err(e),
                        Ok((tag2, p4)) => if tag2 != 0x05 {
                            invalid_at(p4)
                        } else {
                            match spec_expandable(s, p4, 0, 0) {
                                Err(e) => Err(e),
                                Ok((len, p5)) => match spec_read_bytes(s, p5, len as int) {
                                    Err(e) => Err(e),
                                    Ok((asc, p6)) => Ok(
                                        (SpecDecoderConfig::AacLc { audio_specific_config: asc }, p6),
                                    ),
                                },
                            }
                        },
                    },
                },
            }
        },
    }
}

/// The decoder config for `codec_id`; an unknown codec keeps the rest of
/// the payload.
pub open spec fn spec_decoder_config(s: Seq<u8>, pos: int, codec_id: SpecCodecId) -> SpecResult<SpecDecoderConfig> {
    match codec_id {
        SpecCodecId::Opus => spec_opus_config(s, pos),
        SpecCodecId::Flac => spec_flac_streaminfo(s, pos),
        SpecCodecId::Lpcm => spec_lpcm_config(s, pos),
        SpecCodecId::AacLc => spec_aac_config(s, pos),
        SpecCodecId::Unknown(_) => Ok((SpecDecoderConfig::Unknown(s.subrange(pos, s.len() as int)), s.len() as int)),
    }
}

/// codec_config_id (leb128), 4CC, num_samples_per_frame (leb128,
/// nonzero), audio_roll_distance (i16), then the decoder config.
pub open spec fn spec_codec_config(s: Seq<u8>, pos: int) -> SpecResult<SpecCodecConfig> {
    match spec_read_leb128(s, pos) {
        Err(e) => Err(e),
        Ok((codec_config_id, p1)) => match spec_read_bytes(s, p1, 4) {
            Err(e) => Err(e),
            Ok((fourcc, p2)) => match spec_read_leb128(s, p2) {
                Err(e) => Err(e),
                Ok((num_samples_per_frame, p3)) => if num_samples_per_frame == 0 {
                    invalid_at(p3)
                } else {
                    match spec_read_i16_be(s, p3) {
                        Err(e) => Err(e),
                        Ok((audio_roll_distance, p4)) => match spec_decoder_config(s, p4, spec_codec_id(fourcc)) {
                            Err(e) => Err(e),
                            Ok((decoder_config, p5)) => Ok(
                                (
                                    SpecCodecConfig {
                                        codec_config_id,
                                        codec_id: spec_codec_id(fourcc),
                                        num_samples_per_frame,
                                        audio_roll_distance,
                                        decoder_config,
                                    },
                                    p5,
                                ),
                            ),
                        },
                    }
                },
            },
        },
    }
}

impl CodecConfig {
    pub fn parse(r: &mut ByteReader<'_>) -> (res: Result<Self, Error>)
        ensures
            final(r).input() == old(r).input(),
            final(r).cursor() <= final(r).input().len(),
            agrees(view_res(res), final(r).cursor(), spec_codec_config(old(r).input(), old(r).cursor())),
    {
        let codec_config_id = r.read_leb128()?;
        let codec_id = CodecId::from_fourcc(r.read_fourcc()?);
        let num_samples_per_frame = r.read_leb128()?;
        if num_samples_per_frame == 0 {
            return Err(invalid(r));
        }
        let audio_roll_distance = r.read_i16_be()?;
        let decoder_config = match codec_id {
            CodecId::Opus => Self::parse_opus_config(r)?,
            CodecId::Flac => Self::parse_flac_streaminfo(r)?,
            CodecId::Lpcm => Self::parse_lpcm_config(r)?,
            CodecId::AacLc => Self::parse_aac_decoder_config(r)?,
            CodecId::Unknown(_) => {
                let rest = r.rest();
                DecoderConfig::Unknown(slice_to_vec(rest))
            },
        };
        Ok(CodecConfig {
            codec_config_id,
            codec_id,
            num_samples_per_frame,
            audio_roll_distance,
            decoder_config,
        })
    }

    fn parse_opus_config(r: &mut ByteReader<'_>) -> (res: Result<DecoderConfig, Error>)
        ensures
            final(r).input() == old(r).input(),
            final(r).cursor() <= final(r).input().len(),
            agrees(view_res(res), final(r).cursor(), spec_opus_config(old(r).input(), old(r).cursor())),
    {
        let version = r.read_u8()?;
        let output_channel_count = r.read_u8()?;
        let pre_skip = r.read_u16_be()?;
        let input_sample_rate = r.read_u32_be()?;
        let output_gain = r.read_i16_be()?;
        let mapping_family = r.read_u8()?;
        Ok(DecoderConfig::Opus {
            version,
            output_channel_count,
            pre_skip,
            input_sample_rate,
            output_gain,
            mapping_family,
        })
    }

    fn parse_lpcm_config(r: &mut ByteReader<'_>) -> (res: Result<DecoderConfig, Error>)
        ensures
            final(r).input() == old(r).input(),
            final(r).cursor() <= final(r).input().len(),
            agrees(view_res(res), final(r).cursor(), spec_lpcm_config(old(r).input(), old(r).cursor())),
    {
        let flags = r.read_u8()?;
        let sample_size = r.read_u8()?;
        let sample_rate = r.read_u32_be()?;
        Ok(DecoderConfig::Lpcm { little_endian: flags & 0x01 != 0, sample_size, sample_rate })
    }

    /// Walks FLAC metadata blocks to the STREAMINFO block (block type 0).
    fn parse_flac_streaminfo(r: &mut ByteReader<'_>) -> (res: Result<DecoderConfig, Error>)
        requires
            old(r).cursor() <= old(r).input().len(),
        ensures
            final(r).input() == old(r).input(),
            final(r).cursor() <= final(r).input().len(),
            agrees(view_res(res), final(r).cursor(), spec_flac_streaminfo(old(r).input(), old(r).cursor())),
    {
        let ghost input = r.input();
        let ghost start = r.cursor();
        loop
            invariant
                r.input() == input,
                input == old(r).input(),
                start == old(r).cursor(),
                r.cursor() <= r.input().len(),
                spec_flac_streaminfo(input, start) == spec_flac_streaminfo(input, r.cursor()),
            decreases r.input().len() - r.cursor(),
        {
            let header = r.read_u32_be()?;
            let last = header >> 31 & 0x1 != 0;
            let block_type = header >> 24 & 0x7f;
            let length = (header & 0xff_ffff) as usize;
            if block_type == 0 {
                let block = r.read_bytes(length)?;
                if block.len() < 18 {
                    return Err(invalid(r));
                }
                let streaminfo = slice_to_vec(block);
                let packed = (streaminfo[10] as u32) * 0x1000000 + (streaminfo[11] as u32) * 0x10000
                    + (streaminfo[12] as u32) * 0x100 + streaminfo[13] as u32;
                assert(packed == be32(streaminfo@.subrange(10, 14)));
                assert(packed >> 4u32 & 0x1f <= 31) by (bit_vector);
                return Ok(DecoderConfig::Flac {
                    sample_rate: packed >> 12 & 0xf_ffff,
                    bits_per_sample: ((packed >> 4 & 0x1f) + 1) as u8,
                    streaminfo,
                });
            }
            r.skip(length)?;
            if last {
                return Err(invalid(r));
            }
        }
    }

    /// Reads an ISO/IEC 14496-1 expandable length field.
    fn read_expandable(r: &mut ByteReader<'_>) -> (res: Result<usize, Error>)
        ensures
            final(r).input() == old(r).input(),
            final(r).cursor() <= final(r).input().len(),
            match spec_expandable(old(r).input(), old(r).cursor(), 0, 0) {
                Ok((v, p)) => res == Ok::<usize, Error>(v as usize) && final(r).cursor() == p && v < 0x10000000,
                Err(e) => res == Err::<usize, Error>(e),
            },
    {
        let ghost input = r.input();
        let ghost start = r.cursor();
        let mut size: usize = 0;
        let mut i: usize = 0;
        while i < 4
            invariant
                r.input() == input,
                input == old(r).input(),
                start == old(r).cursor(),
                i <= 4,
                i > 0 ==> r.cursor() <= r.input().len(),
                size < pow128_u(i as nat),
                spec_expandable(input, start, 0, 0) == spec_expandable(input, r.cursor(), i as nat, size as nat),
            decreases 4 - i,
        {
            let byte = r.read_u8()?;
            let low = byte & 0x7f;
            assert(low == byte % 128) by (bit_vector)
                requires
                    low == byte & 0x7f,
            ;
            assert(size * 128 + low < pow128_u((i + 1) as nat)) by (nonlinear_arith)
                requires
                    size < pow128_u(i as nat),
                    low < 128,
                    pow128_u((i + 1) as nat) == 128 * pow128_u(i as nat),
            ;
            assert(pow128_u((i + 1) as nat) <= 0x10000000) by {
                reveal_with_fuel(pow128_u, 5);
            }
            size = size * 128 + low as usize;
            i = i + 1;
            if byte & 0x80 == 0 {
                assert(byte < 128) by (bit_vector)
                    requires
                        byte & 0x80 == 0,
                ;
                return Ok(size);
            }
            assert(byte >= 128) by (bit_vector)
                requires
                    byte & 0x80 != 0,
            ;
        }
        assert(pow128_u(4) == 0x10000000) by {
            reveal_with_fuel(pow128_u, 5);
        }
        Ok(size)
    }

    /// decoder_config is a DecoderConfigDescriptor (tag 0x04):
    /// 13 fixed bytes, then a DecSpecificInfo (tag 0x05) carrying the
    /// AudioSpecificConfig, which codecs need for initialization.
    fn parse_aac_decoder_config(r: &mut ByteReader<'_>) -> (res: Result<DecoderConfig, Error>)
        ensures
            final(r).input() == old(r).input(),
            final(r).cursor() <= final(r).input().len(),
            agrees(view_res(res), final(r).cursor(), spec_aac_config(old(r).input(), old(r).cursor())),
    {
        if r.read_u8()? != 0x04 {
            return Err(invalid(r));
        }
        Self::read_expandable(r)?;
        r.skip(13)?;
        if r.read_u8()? != 0x05 {
            return Err(invalid(r));
        }
        let asc_len = Self::read_expandable(r)?;
        let asc = r.read_bytes(asc_len)?;
        Ok(DecoderConfig::AacLc { audio_specific_config: slice_to_vec(asc) })
    }
}

// ---------------------------------------------------------------------------
// Counted lists
// ---------------------------------------------------------------------------

/// A syntax element that `read_bounded_vec` can repeat; `ctx` carries a
/// count the item's syntax depends on (the label count of a mix
/// presentation), ignored by most items.
pub trait ReadItem {
    type Item: View;

    /// What one item at a position of an input is.
    spec fn item(ctx: u32) -> spec_fn(Seq<u8>, int) -> SpecResult<<Self::Item as View>::V>;

    fn read(r: &mut ByteReader<'_>, ctx: u32) -> (res: Result<Self::Item, Error>)
        requires
            old(r).cursor() <= old(r).input().len(),
        ensures
            final(r).input() == old(r).input(),
            final(r).cursor() <= final(r).input().len(),
            agrees(view_res(res), final(r).cursor(), (Self::item(ctx))(old(r).input(), old(r).cursor())),
    ;
}

/// Reads `count` items in a row.
fn read_list<R: ReadItem>(r: &mut ByteReader<'_>, count: usize, ctx: u32) -> (res: Result<Vec<R::Item>, Error>)
    requires
        old(r).cursor() <= old(r).input().len(),
    ensures
        final(r).input() == old(r).input(),
        final(r).cursor() <= final(r).input().len(),
        agrees(
            match res {
                Ok(v) => Ok(views(v@)),
                Err(e) => Err(e),
            },
            final(r).cursor(),
            spec_list(old(r).input(), old(r).cursor(), count as nat, R::item(ctx)),
        ),
{
    let ghost input = r.input();
    let ghost start = r.cursor();
    let mut items: Vec<R::Item> = Vec::new();
    let mut i: usize = 0;
    assert(views(items@) =~= Seq::<<R::Item as View>::V>::empty());
    while i < count
        invariant
            input == old(r).input(),
            start == old(r).cursor(),
            r.input() == input,
            r.cursor() <= r.input().len(),
            i <= count,
            spec_list(input, start, i as nat, R::item(ctx)) == Ok::<(Seq<<R::Item as View>::V>, int), Error>((views(items@), r.cursor())),
        decreases count - i,
    {
        let ghost here = r.cursor();
        let item = match R::read(r, ctx) {
            Ok(item) => item,
            Err(e) => {
                proof {
                    assert((R::item(ctx))(input, here) == Err::<(<R::Item as View>::V, int), Error>(e));
                    assert(spec_list(input, start, (i + 1) as nat, R::item(ctx)) == Err::<(Seq<<R::Item as View>::V>, int), Error>(e));
                    lemma_list_err_extends(input, start, (i + 1) as nat, count as nat, R::item(ctx));
                }
                return Err(e);
            },
        };
        let ghost before = items@;
        items.push(item);
        assert(views(items@) =~= views(before).push(item@));
        i = i + 1;
    }
    Ok(items)
}

/// Reads `count` items, guarding against absurd counts from a hostile
/// bitstream: each item must consume at least one byte, so `count` can never
/// legitimately exceed the bytes remaining.
fn read_bounded_vec<R: ReadItem>(r: &mut ByteReader<'_>, count: u32, ctx: u32) -> (res: Result<Vec<R::Item>, Error>)
    requires
        old(r).cursor() <= old(r).input().len(),
    ensures
        final(r).input() == old(r).input(),
        final(r).cursor() <= final(r).input().len(),
        agrees(
            match res {
                Ok(v) => Ok(views(v@)),
                Err(e) => Err(e),
            },
            final(r).cursor(),
            spec_bounded_list(old(r).input(), old(r).cursor(), count, R::item(ctx)),
        ),
{
    let n = count as usize;
    if n > r.remaining() {
        return Err(Error::UnexpectedEof { offset: r.position() });
    }
    read_list::<R>(r, n, ctx)
}

pub struct Leb128Item;

impl ReadItem for Leb128Item {
    type Item = u32;

    open spec fn item(ctx: u32) -> spec_fn(Seq<u8>, int) -> SpecResult<u32> {
        leb128_item()
    }

    fn read(r: &mut ByteReader<'_>, ctx: u32) -> (res: Result<u32, Error>) {
        r.read_leb128()
    }
}

pub struct StringItem;

impl ReadItem for StringItem {
    type Item = String;

    open spec fn item(ctx: u32) -> spec_fn(Seq<u8>, int) -> SpecResult<Seq<char>> {
        string_item()
    }

    fn read(r: &mut ByteReader<'_>, ctx: u32) -> (res: Result<String, Error>) {
        r.read_string()
    }
}

// ---------------------------------------------------------------------------
// Parameter definitions (param_definition)
// ---------------------------------------------------------------------------

/// Common parameter definition fields.
#[derive(Debug, Clone, PartialEq, Eq)]
pub struct ParamDefinition {
    pub parameter_id: u32,
    pub parameter_rate: u32,
    /// Mode 1: parameter blocks define their own timing. Mode 0: timing
    /// below applies.
    pub mode: bool,
    pub duration: u32,
    pub constant_subblock_duration: u32,
    pub subblock_durations: Vec<u32>,
}

/// A parameter definition as values.
pub struct SpecParamDefinition {
    pub parameter_id: u32,
    pub parameter_rate: u32,
    pub mode: bool,
    pub duration: u32,
    pub constant_subblock_duration: u32,
    pub subblock_durations: Seq<u32>,
}

impl View for ParamDefinition {
    type V = SpecParamDefinition;

    open spec fn view(&self) -> SpecParamDefinition {
        SpecParamDefinition {
            parameter_id: self.parameter_id,
            parameter_rate: self.parameter_rate,
            mode: self.mode,
            duration: self.duration,
            constant_subblock_duration: self.constant_subblock_duration,
            subblock_durations: self.subblock_durations@,
        }
    }
}

/// parameter_id, parameter_rate (leb128), mode bit (top bit of a byte);
/// in mode 0 duration and constant_subblock_duration (leb128), and when
/// the latter is 0 a counted list of subblock durations.
pub open spec fn spec_param_definition(s: Seq<u8>, pos: int) -> SpecResult<SpecParamDefinition> {
    match spec_read_leb128(s, pos) {
        Err(e) => Err(e),
        Ok((parameter_id, p1)) => match spec_read_leb128(s, p1) {
            Err(e) => Err(e),
            Ok((parameter_rate, p2)) => match spec_read_u8(s, p2) {
                Err(e) => Err(e),
                Ok((byte, p3)) => {
                    let mode = byte & 0x80 != 0;
                    let base = SpecParamDefinition {
                        parameter_id,
                        parameter_rate,
                        mode,
                        duration: 0,
                        constant_subblock_duration: 0,
                        subblock_durations: Seq::empty(),
                    };
                    if mode {
                        Ok((base, p3))
                    } else {
                        match spec_read_leb128(s, p3) {
                            Err(e) => Err(e),
                            Ok((duration, p4)) => match spec_read_leb128(s, p4) {
                                Err(e) => Err(e),
                                Ok((csd, p5)) => if csd != 0 {
                                    Ok((SpecParamDefinition { duration, constant_subblock_duration: csd, ..base }, p5))
                                } else {
                                    match spec_read_leb128(s, p5) {
                                        Err(e) => Err(e),
                                        Ok((count, p6)) => match spec_bounded_list(s, p6, count, leb128_item()) {
                                            Err(e) => Err(e),
                                            Ok((durations, p7)) => Ok(
                                                (
                                                    SpecParamDefinition {
                                                        duration,
                                                        constant_subblock_duration: 0,
                                                        subblock_durations: durations,
                                                        ..base
                                                    },
                                                    p7,
                                                ),
                                            ),
                                        },
                                    }
                                },
                            },
                        }
                    }
                },
            },
        },
    }
}

impl ParamDefinition {
    pub fn parse(r: &mut ByteReader<'_>) -> (res: Result<Self, Error>)
        requires
            old(r).cursor() <= old(r).input().len(),
        ensures
            final(r).input() == old(r).input(),
            final(r).cursor() <= final(r).input().len(),
            agrees(view_res(res), final(r).cursor(), spec_param_definition(old(r).input(), old(r).cursor())),
    {
        let parameter_id = r.read_leb128()?;
        let parameter_rate = r.read_leb128()?;
        let mode = r.read_u8()? & 0x80 != 0;
        let mut def = ParamDefinition {
            parameter_id,
            parameter_rate,
            mode,
            duration: 0,
            constant_subblock_duration: 0,
            subblock_durations: Vec::new(),
        };
        if !mode {
            def.duration = r.read_leb128()?;
            def.constant_subblock_duration = r.read_leb128()?;
            if def.constant_subblock_duration == 0 {
                let count = r.read_leb128()?;
                let durations = read_bounded_vec::<Leb128Item>(r, count, 0)?;
                assert(views(durations@) =~= durations@);
                def.subblock_durations = durations;
            }
        }
        Ok(def)
    }
}

/// Parameter definition types (param_definition_type); mix gain
/// (type 0) never appears in audio elements, only in mix presentations.
pub const PARAM_TYPE_DEMIXING: u32 = 1;
pub const PARAM_TYPE_RECON_GAIN: u32 = 2;

#[derive(Debug, Clone, PartialEq, Eq)]
pub enum ElementParam {
    Demixing { base: ParamDefinition, default_demixing_mode: u8, default_weight_index: u8 },
    ReconGain(ParamDefinition),
    /// Reserved type; its sized definition was skipped.
    Unknown { param_type: u32 },
}

/// An element parameter as values.
pub enum SpecElementParam {
    Demixing { base: SpecParamDefinition, default_demixing_mode: u8, default_weight_index: u8 },
    ReconGain(SpecParamDefinition),
    Unknown { param_type: u32 },
}

impl View for ElementParam {
    type V = SpecElementParam;

    open spec fn view(&self) -> SpecElementParam {
        match self {
            ElementParam::Demixing { base, default_demixing_mode, default_weight_index } => SpecElementParam::Demixing {
                base: base@,
                default_demixing_mode: *default_demixing_mode,
                default_weight_index: *default_weight_index,
            },
            ElementParam::ReconGain(base) => SpecElementParam::ReconGain(base@),
            ElementParam::Unknown { param_type } => SpecElementParam::Unknown { param_type: *param_type },
        }
    }
}

/// param_definition_type (leb128), then: demixing = definition, mode (top
/// 3 bits of a byte), weight index (top 4 bits of the next byte); recon
/// gain = definition; any other type = sized definition, skipped.
pub open spec fn spec_element_param(s: Seq<u8>, pos: int) -> SpecResult<SpecElementParam> {
    match spec_read_leb128(s, pos) {
        Err(e) => Err(e),
        Ok((param_type, p1)) => if param_type == PARAM_TYPE_DEMIXING {
            match spec_param_definition(s, p1) {
                Err(e) => Err(e),
                Ok((base, p2)) => match spec_read_u8(s, p2) {
                    Err(e) => Err(e),
                    Ok((b1, p3)) => match spec_read_u8(s, p3) {
                        Err(e) => Err(e),
                        Ok((b2, p4)) => Ok(
                            (
                                SpecElementParam::Demixing {
                                    base,
                                    default_demixing_mode: b1 >> 5u8 & 0x07,
                                    default_weight_index: b2 >> 4u8 & 0x0f,
                                },
                                p4,
                            ),
                        ),
                    },
                },
            }
        } else if param_type == PARAM_TYPE_RECON_GAIN {
            match spec_param_definition(s, p1) {
                Err(e) => Err(e),
                Ok((base, p2)) => Ok((SpecElementParam::ReconGain(base), p2)),
            }
        } else {
            match spec_read_leb128(s, p1) {
                Err(e) => Err(e),
                Ok((size, p2)) => match spec_read_bytes(s, p2, size as int) {
                    Err(e) => Err(e),
                    Ok((_, p3)) => Ok((SpecElementParam::Unknown { param_type }, p3)),
                },
            }
        },
    }
}

pub struct ElementParamItem;

impl ReadItem for ElementParamItem {
    type Item = ElementParam;

    open spec fn item(ctx: u32) -> spec_fn(Seq<u8>, int) -> SpecResult<SpecElementParam> {
        |s: Seq<u8>, p: int| spec_element_param(s, p)
    }

    fn read(r: &mut ByteReader<'_>, ctx: u32) -> (res: Result<ElementParam, Error>) {
        let param_type = r.read_leb128()?;
        if param_type == PARAM_TYPE_DEMIXING {
            let base = ParamDefinition::parse(r)?;
            let byte = r.read_u8()?;
            let default_demixing_mode = byte >> 5 & 0x07;
            let default_weight_index = r.read_u8()? >> 4 & 0x0f;
            Ok(ElementParam::Demixing { base, default_demixing_mode, default_weight_index })
        } else if param_type == PARAM_TYPE_RECON_GAIN {
            Ok(ElementParam::ReconGain(ParamDefinition::parse(r)?))
        } else {
            // Reserved types carry param_definition_size for skipping.
            let size = r.read_leb128()?;
            r.skip(size as usize)?;
            Ok(ElementParam::Unknown { param_type })
        }
    }
}

#[derive(Debug, Clone, PartialEq, Eq)]
pub struct MixGainParam {
    pub base: ParamDefinition,
    /// Q7.8 dB.
    pub default_mix_gain: i16,
}

/// A mix gain parameter as values.
pub struct SpecMixGainParam {
    pub base: SpecParamDefinition,
    pub default_mix_gain: i16,
}

impl View for MixGainParam {
    type V = SpecMixGainParam;

    open spec fn view(&self) -> SpecMixGainParam {
        SpecMixGainParam { base: self.base@, default_mix_gain: self.default_mix_gain }
    }
}

/// A parameter definition followed by the default gain (i16, Q7.8 dB).
pub open spec fn spec_mix_gain_param(s: Seq<u8>, pos: int) -> SpecResult<SpecMixGainParam> {
    match spec_param_definition(s, pos) {
        Err(e) => Err(e),
        Ok((base, p1)) => match spec_read_i16_be(s, p1) {
            Err(e) => Err(e),
            Ok((default_mix_gain, p2)) => Ok((SpecMixGainParam { base, default_mix_gain }, p2)),
        },
    }
}

impl MixGainParam {
    pub fn parse(r: &mut ByteReader<'_>) -> (res: Result<Self, Error>)
        requires
            old(r).cursor() <= old(r).input().len(),
        ensures
            final(r).input() == old(r).input(),
            final(r).cursor() <= final(r).input().len(),
            agrees(view_res(res), final(r).cursor(), spec_mix_gain_param(old(r).input(), old(r).cursor())),
    {
        let base = ParamDefinition::parse(r)?;
        let default_mix_gain = r.read_i16_be()?;
        Ok(MixGainParam { base, default_mix_gain })
    }
}

// ---------------------------------------------------------------------------
// Audio element
// ---------------------------------------------------------------------------

#[derive(Debug, Clone, Copy, PartialEq, Eq)]
pub struct ChannelAudioLayer {
    pub loudspeaker_layout: u8,
    pub substream_count: u8,
    pub coupled_substream_count: u8,
    pub recon_gain_is_present: bool,
    /// (output_gain_flags, output_gain Q7.8 dB) when present.
    pub output_gain: Option<(u8, i16)>,
    /// Present when the first layer's loudspeaker_layout is 15 (expanded).
    pub expanded_loudspeaker_layout: Option<u8>,
}

/// loudspeaker_layout value announcing an expanded layout byte.
pub const EXPANDED_LAYOUT: u8 = 15;

/// One scalable channel layer; `index` is its position.
pub open spec fn spec_channel_layer(s: Seq<u8>, pos: int, index: nat) -> SpecResult<ChannelAudioLayer> {
    match spec_read_u8(s, pos) {
        Err(e) => Err(e),
        Ok((byte, p1)) => {
            let loudspeaker_layout = byte >> 4u8 & 0x0f;
            let output_gain_is_present = byte >> 3u8 & 0x01 != 0;
            let recon_gain_is_present = byte >> 2u8 & 0x01 != 0;
            match spec_read_u8(s, p1) {
                Err(e) => Err(e),
                Ok((substream_count, p2)) => match spec_read_u8(s, p2) {
                    Err(e) => Err(e),
                    Ok((coupled_substream_count, p3)) => {
                        let gain: SpecResult<Option<(u8, i16)>> = if output_gain_is_present {
                            match spec_read_u8(s, p3) {
                                Err(e) => Err(e),
                                Ok((f, q1)) => match spec_read_i16_be(s, q1) {
                                    Err(e) => Err(e),
                                    Ok((g, q2)) => Ok((Some((f >> 2u8 & 0x3f, g)), q2)),
                                },
                            }
                        } else {
                            Ok((None, p3))
                        };
                        match gain {
                            Err(e) => Err(e),
                            Ok((output_gain, p4)) => {
                                let expanded: SpecResult<Option<u8>> = if index == 0 && loudspeaker_layout
                                    == EXPANDED_LAYOUT {
                                    match spec_read_u8(s, p4) {
                                        Err(e) => Err(e),
                                        Ok((x, q)) => Ok((Some(x), q)),
                                    }
                                } else {
                                    Ok((None, p4))
                                };
                                match expanded {
                                    Err(e) => Err(e),
                                    Ok((expanded_loudspeaker_layout, p5)) => Ok(
                                        (
                                            ChannelAudioLayer {
                                                loudspeaker_layout,
                                                substream_count,
                                                coupled_substream_count,
                                                recon_gain_is_present,
                                                output_gain,
                                                expanded_loudspeaker_layout,
                                            },
                                            p5,
                                        ),
                                    ),
                                }
                            },
                        }
                    },
                },
            }
        },
    }
}

/// The first `n` layers.
pub open spec fn spec_channel_layers(s: Seq<u8>, pos: int, n: nat) -> SpecResult<Seq<ChannelAudioLayer>>
    decreases n,
{
    if n == 0 {
        Ok((Seq::empty(), pos))
    } else {
        match spec_channel_layers(s, pos, (n - 1) as nat) {
            Err(e) => Err(e),
            Ok((layers, p)) => match spec_channel_layer(s, p, (n - 1) as nat) {
                Err(e) => Err(e),
                Ok((layer, q)) => Ok((layers.push(layer), q)),
            },
        }
    }
}

proof fn lemma_layers_err_extends(s: Seq<u8>, pos: int, k: nat, m: nat)
    requires
        k <= m,
        spec_channel_layers(s, pos, k) is Err,
    ensures
        spec_channel_layers(s, pos, m) == spec_channel_layers(s, pos, k),
    decreases m,
{
    if m > k {
        lemma_layers_err_extends(s, pos, k, (m - 1) as nat);
    }
}

#[derive(Debug, Clone, PartialEq, Eq)]
pub enum AudioElementConfig {
    /// Scalable channel layout config.
    ChannelBased { layers: Vec<ChannelAudioLayer> },
    /// Ambisonics config, MONO mode.
    AmbisonicsMono { output_channel_count: u8, substream_count: u8, channel_mapping: Vec<u8> },
    /// Ambisonics config, PROJECTION mode.
    AmbisonicsProjection {
        output_channel_count: u8,
        substream_count: u8,
        coupled_substream_count: u8,
        /// (substream_count + coupled_substream_count) rows of
        /// output_channel_count Q1.15 entries, decoded-channel-major
        /// (entry `[c * output_channel_count + acn]`).
        demixing_matrix: Vec<i16>,
    },
}

/// An element config as values.
pub enum SpecAudioElementConfig {
    ChannelBased { layers: Seq<ChannelAudioLayer> },
    AmbisonicsMono { output_channel_count: u8, substream_count: u8, channel_mapping: Seq<u8> },
    AmbisonicsProjection {
        output_channel_count: u8,
        substream_count: u8,
        coupled_substream_count: u8,
        demixing_matrix: Seq<i16>,
    },
}

impl View for AudioElementConfig {
    type V = SpecAudioElementConfig;

    open spec fn view(&self) -> SpecAudioElementConfig {
        match self {
            AudioElementConfig::ChannelBased { layers } => SpecAudioElementConfig::ChannelBased { layers: layers@ },
            AudioElementConfig::AmbisonicsMono { output_channel_count, substream_count, channel_mapping } =>
                SpecAudioElementConfig::AmbisonicsMono {
                output_channel_count: *output_channel_count,
                substream_count: *substream_count,
                channel_mapping: channel_mapping@,
            },
            AudioElementConfig::AmbisonicsProjection {
                output_channel_count,
                substream_count,
                coupled_substream_count,
                demixing_matrix,
            } => SpecAudioElementConfig::AmbisonicsProjection {
                output_channel_count: *output_channel_count,
                substream_count: *substream_count,
                coupled_substream_count: *coupled_substream_count,
                demixing_matrix: demixing_matrix@,
            },
        }
    }
}

/// num_layers (top 3 bits of a byte, nonzero), then the layers.
pub open spec fn spec_channel_config(s: Seq<u8>, pos: int) -> SpecResult<SpecAudioElementConfig> {
    match spec_read_u8(s, pos) {
        Err(e) => Err(e),
        Ok((byte, p1)) => {
            let num_layers = byte >> 5u8 & 0x07;
            if num_layers == 0 {
                invalid_at(p1)
            } else {
                match spec_channel_layers(s, p1, num_layers as nat) {
                    Err(e) => Err(e),
                    Ok((layers, p2)) => Ok((SpecAudioElementConfig::ChannelBased { layers }, p2)),
                }
            }
        },
    }
}

pub const AMBISONICS_MODE_MONO: u32 = 0;
pub const AMBISONICS_MODE_PROJECTION: u32 = 1;

/// ambisonics_mode (leb128); mono = channel count, substream
/// count, one mapping byte per channel; projection = channel count,
/// substream and coupled counts, then (substreams + coupled) x channels
/// i16 matrix entries; other modes are invalid.
pub open spec fn spec_ambisonics_config(s: Seq<u8>, pos: int) -> SpecResult<SpecAudioElementConfig> {
    match spec_read_leb128(s, pos) {
        Err(e) => Err(e),
        Ok((mode, p1)) => if mode == AMBISONICS_MODE_MONO {
            match spec_read_u8(s, p1) {
                Err(e) => Err(e),
                Ok((occ, p2)) => match spec_read_u8(s, p2) {
                    Err(e) => Err(e),
                    Ok((sc, p3)) => match spec_read_bytes(s, p3, occ as int) {
                        Err(e) => Err(e),
                        Ok((mapping, p4)) => Ok(
                            (
                                SpecAudioElementConfig::AmbisonicsMono {
                                    output_channel_count: occ,
                                    substream_count: sc,
                                    channel_mapping: mapping,
                                },
                                p4,
                            ),
                        ),
                    },
                },
            }
        } else if mode == AMBISONICS_MODE_PROJECTION {
            match spec_read_u8(s, p1) {
                Err(e) => Err(e),
                Ok((occ, p2)) => match spec_read_u8(s, p2) {
                    Err(e) => Err(e),
                    Ok((sc, p3)) => match spec_read_u8(s, p3) {
                        Err(e) => Err(e),
                        Ok((csc, p4)) => match spec_list(s, p4, ((sc + csc) * occ) as nat, i16_item()) {
                            Err(e) => Err(e),
                            Ok((matrix, p5)) => Ok(
                                (
                                    SpecAudioElementConfig::AmbisonicsProjection {
                                        output_channel_count: occ,
                                        substream_count: sc,
                                        coupled_substream_count: csc,
                                        demixing_matrix: matrix,
                                    },
                                    p5,
                                ),
                            ),
                        },
                    },
                },
            }
        } else {
            invalid_at(p1)
        },
    }
}

#[derive(Debug, Clone, PartialEq, Eq)]
pub struct AudioElement {
    pub audio_element_id: u32,
    pub codec_config_id: u32,
    pub substream_ids: Vec<u32>,
    pub params: Vec<ElementParam>,
    pub config: AudioElementConfig,
}

/// An audio element as values.
pub struct SpecAudioElement {
    pub audio_element_id: u32,
    pub codec_config_id: u32,
    pub substream_ids: Seq<u32>,
    pub params: Seq<SpecElementParam>,
    pub config: SpecAudioElementConfig,
}

impl View for AudioElement {
    type V = SpecAudioElement;

    open spec fn view(&self) -> SpecAudioElement {
        SpecAudioElement {
            audio_element_id: self.audio_element_id,
            codec_config_id: self.codec_config_id,
            substream_ids: self.substream_ids@,
            params: views(self.params@),
            config: self.config@,
        }
    }
}

/// audio_element_id (leb128), element type (top 3 bits of a byte:
/// 0 channel-based, 1 scene-based, others invalid), codec_config_id,
/// counted substream ids, counted parameters, then the type's config.
pub open spec fn spec_audio_element(s: Seq<u8>, pos: int) -> SpecResult<SpecAudioElement> {
    match spec_read_leb128(s, pos) {
        Err(e) => Err(e),
        Ok((audio_element_id, p1)) => match spec_read_u8(s, p1) {
            Err(e) => Err(e),
            Ok((type_byte, p2)) => match spec_read_leb128(s, p2) {
                Err(e) => Err(e),
                Ok((codec_config_id, p3)) => match spec_read_leb128(s, p3) {
                    Err(e) => Err(e),
                    Ok((num_substreams, p4)) => match spec_bounded_list(s, p4, num_substreams, leb128_item()) {
                        Err(e) => Err(e),
                        Ok((substream_ids, p5)) => match spec_read_leb128(s, p5) {
                            Err(e) => Err(e),
                            Ok((num_params, p6)) => match spec_bounded_list(s, p6, num_params, ElementParamItem::item(0)) {
                                Err(e) => Err(e),
                                Ok((params, p7)) => {
                                    let element_type = type_byte >> 5u8 & 0x07;
                                    let config = if element_type == 0 {
                                        spec_channel_config(s, p7)
                                    } else if element_type == 1 {
                                        spec_ambisonics_config(s, p7)
                                    } else {
                                        invalid_at(p7)
                                    };
                                    match config {
                                        Err(e) => Err(e),
                                        Ok((config, p8)) => Ok(
                                            (
                                                SpecAudioElement {
                                                    audio_element_id,
                                                    codec_config_id,
                                                    substream_ids,
                                                    params,
                                                    config,
                                                },
                                                p8,
                                            ),
                                        ),
                                    }
                                },
                            },
                        },
                    },
                },
            },
        },
    }
}

impl AudioElement {
    pub fn parse(r: &mut ByteReader<'_>) -> (res: Result<Self, Error>)
        requires
            old(r).cursor() <= old(r).input().len(),
        ensures
            final(r).input() == old(r).input(),
            final(r).cursor() <= final(r).input().len(),
            agrees(view_res(res), final(r).cursor(), spec_audio_element(old(r).input(), old(r).cursor())),
    {
        let audio_element_id = r.read_leb128()?;
        let element_type = r.read_u8()? >> 5 & 0x07;
        let codec_config_id = r.read_leb128()?;
        let num_substreams = r.read_leb128()?;
        let substream_ids = read_bounded_vec::<Leb128Item>(r, num_substreams, 0)?;
        assert(views(substream_ids@) =~= substream_ids@);

        let num_params = r.read_leb128()?;
        let params = read_bounded_vec::<ElementParamItem>(r, num_params, 0)?;

        let config = if element_type == 0 {
            Self::parse_channel_config(r)?
        } else if element_type == 1 {
            Self::parse_ambisonics_config(r)?
        } else {
            return Err(invalid(r));
        };

        Ok(AudioElement { audio_element_id, codec_config_id, substream_ids, params, config })
    }

    #[verifier::loop_isolation(false)]
    fn parse_channel_config(r: &mut ByteReader<'_>) -> (res: Result<AudioElementConfig, Error>)
        requires
            old(r).cursor() <= old(r).input().len(),
        ensures
            final(r).input() == old(r).input(),
            final(r).cursor() <= final(r).input().len(),
            agrees(view_res(res), final(r).cursor(), spec_channel_config(old(r).input(), old(r).cursor())),
    {
        let num_layers = r.read_u8()? >> 5 & 0x07;
        if num_layers == 0 {
            return Err(invalid(r));
        }
        let ghost input = r.input();
        let ghost start = r.cursor();
        let mut layers: Vec<ChannelAudioLayer> = Vec::with_capacity(num_layers as usize);
        let mut i: u8 = 0;
        while i < num_layers
            invariant
                input == old(r).input(),
                r.input() == input,
                r.cursor() <= r.input().len(),
                i <= num_layers,
                spec_channel_layers(input, start, i as nat) == Ok::<(Seq<ChannelAudioLayer>, int), Error>((layers@, r.cursor())),
            decreases num_layers - i,
        {
            let layer = match Self::parse_channel_layer(r, i) {
                Ok(layer) => layer,
                Err(e) => {
                    proof {
                        lemma_layers_err_extends(input, start, (i + 1) as nat, num_layers as nat);
                    }
                    return Err(e);
                },
            };
            layers.push(layer);
            i = i + 1;
        }
        Ok(AudioElementConfig::ChannelBased { layers })
    }

    fn parse_channel_layer(r: &mut ByteReader<'_>, i: u8) -> (res: Result<ChannelAudioLayer, Error>)
        ensures
            final(r).input() == old(r).input(),
            final(r).cursor() <= final(r).input().len(),
            agrees(res, final(r).cursor(), spec_channel_layer(old(r).input(), old(r).cursor(), i as nat)),
    {
        let byte = r.read_u8()?;
        let loudspeaker_layout = byte >> 4 & 0x0f;
        let output_gain_is_present = byte >> 3 & 0x01 != 0;
        let recon_gain_is_present = byte >> 2 & 0x01 != 0;
        let substream_count = r.read_u8()?;
        let coupled_substream_count = r.read_u8()?;
        let output_gain = if output_gain_is_present {
            let flags = r.read_u8()? >> 2 & 0x3f;
            Some((flags, r.read_i16_be()?))
        } else {
            None
        };
        let expanded_loudspeaker_layout = if i == 0 && loudspeaker_layout == EXPANDED_LAYOUT {
            Some(r.read_u8()?)
        } else {
            None
        };
        Ok(ChannelAudioLayer {
            loudspeaker_layout,
            substream_count,
            coupled_substream_count,
            recon_gain_is_present,
            output_gain,
            expanded_loudspeaker_layout,
        })
    }

    #[verifier::loop_isolation(false)]
    fn parse_ambisonics_config(r: &mut ByteReader<'_>) -> (res: Result<AudioElementConfig, Error>)
        requires
            old(r).cursor() <= old(r).input().len(),
        ensures
            final(r).input() == old(r).input(),
            final(r).cursor() <= final(r).input().len(),
            agrees(view_res(res), final(r).cursor(), spec_ambisonics_config(old(r).input(), old(r).cursor())),
    {
        let mode = r.read_leb128()?;
        if mode == AMBISONICS_MODE_MONO {
            let output_channel_count = r.read_u8()?;
            let substream_count = r.read_u8()?;
            let mapping = r.read_bytes(output_channel_count as usize)?;
            Ok(AudioElementConfig::AmbisonicsMono {
                output_channel_count,
                substream_count,
                channel_mapping: slice_to_vec(mapping),
            })
        } else if mode == AMBISONICS_MODE_PROJECTION {
            let output_channel_count = r.read_u8()?;
            let substream_count = r.read_u8()?;
            let coupled_substream_count = r.read_u8()?;
            assert((substream_count + coupled_substream_count) * output_channel_count <= 510 * 255) by (nonlinear_arith)
                requires
                    substream_count <= 255,
                    coupled_substream_count <= 255,
                    output_channel_count <= 255,
            ;
            let entries = (substream_count as usize + coupled_substream_count as usize)
                * output_channel_count as usize;
            let ghost input = r.input();
            let ghost start = r.cursor();
            let mut demixing_matrix: Vec<i16> = Vec::with_capacity(entries);
            let mut i: usize = 0;
            while i < entries
                invariant
                    input == old(r).input(),
                    r.input() == input,
                    r.cursor() <= r.input().len(),
                    i <= entries,
                    spec_list(input, start, i as nat, i16_item()) == Ok::<(Seq<i16>, int), Error>((demixing_matrix@, r.cursor())),
                decreases entries - i,
            {
                let v = match r.read_i16_be() {
                    Ok(v) => v,
                    Err(e) => {
                        proof {
                            lemma_list_err_extends(input, start, (i + 1) as nat, entries as nat, i16_item());
                        }
                        return Err(e);
                    },
                };
                demixing_matrix.push(v);
                i = i + 1;
            }
            Ok(AudioElementConfig::AmbisonicsProjection {
                output_channel_count,
                substream_count,
                coupled_substream_count,
                demixing_matrix,
            })
        } else {
            Err(invalid(r))
        }
    }
}

// ---------------------------------------------------------------------------
// Mix presentation
// ---------------------------------------------------------------------------

/// Layout for loudness measurement / rendering targets.
#[derive(Debug, Clone, Copy, PartialEq, Eq, Structural)]
pub enum Layout {
    /// layout_type 2: loudspeaker sound system (0..=9 → A..=J,
    /// then extensions).
    LoudspeakersSsConvention { sound_system: u8 },
    /// layout_type 3.
    Binaural,
    Reserved { layout_type: u8 },
}

impl View for Layout {
    type V = Layout;

    open spec fn view(&self) -> Layout {
        *self
    }
}

/// layout_type in the top 2 bits of a byte: 2 = sound system (next 4
/// bits), 3 = binaural, else reserved.
pub open spec fn spec_layout(s: Seq<u8>, pos: int) -> SpecResult<Layout> {
    match spec_read_u8(s, pos) {
        Err(e) => Err(e),
        Ok((byte, p)) => {
            let layout_type = byte >> 6u8 & 0x03;
            Ok(
                (
                    if layout_type == 2 {
                        Layout::LoudspeakersSsConvention { sound_system: byte >> 2u8 & 0x0f }
                    } else if layout_type == 3 {
                        Layout::Binaural
                    } else {
                        Layout::Reserved { layout_type }
                    },
                    p,
                ),
            )
        },
    }
}

impl Layout {
    pub fn parse(r: &mut ByteReader<'_>) -> (res: Result<Self, Error>)
        ensures
            final(r).input() == old(r).input(),
            final(r).cursor() <= final(r).input().len(),
            agrees(res, final(r).cursor(), spec_layout(old(r).input(), old(r).cursor())),
    {
        let byte = r.read_u8()?;
        let layout_type = byte >> 6 & 0x03;
        Ok(
            if layout_type == 2 {
                Layout::LoudspeakersSsConvention { sound_system: byte >> 2 & 0x0f }
            } else if layout_type == 3 {
                Layout::Binaural
            } else {
                Layout::Reserved { layout_type }
            },
        )
    }
}

/// loudness_info. Gains/loudness values are Q7.8.
#[derive(Debug, Clone, PartialEq, Eq)]
pub struct LoudnessInfo {
    pub info_type: u8,
    pub integrated_loudness: i16,
    pub digital_peak: i16,
    pub true_peak: Option<i16>,
    /// (anchor_element, anchored_loudness) pairs.
    pub anchored_loudness: Vec<(u8, i16)>,
}

/// Loudness info as values.
pub struct SpecLoudnessInfo {
    pub info_type: u8,
    pub integrated_loudness: i16,
    pub digital_peak: i16,
    pub true_peak: Option<i16>,
    pub anchored_loudness: Seq<(u8, i16)>,
}

impl View for LoudnessInfo {
    type V = SpecLoudnessInfo;

    open spec fn view(&self) -> SpecLoudnessInfo {
        SpecLoudnessInfo {
            info_type: self.info_type,
            integrated_loudness: self.integrated_loudness,
            digital_peak: self.digital_peak,
            true_peak: self.true_peak,
            anchored_loudness: self.anchored_loudness@,
        }
    }
}

pub const LOUDNESS_TRUE_PEAK: u8 = 0x01;
pub const LOUDNESS_ANCHORED: u8 = 0x02;

/// One (anchor_element, anchored_loudness) pair.
pub open spec fn anchor_item() -> spec_fn(Seq<u8>, int) -> SpecResult<(u8, i16)> {
    |s: Seq<u8>, p: int|
        match spec_read_u8(s, p) {
            Err(e) => Err(e),
            Ok((a, q)) => match spec_read_i16_be(s, q) {
                Err(e) => Err(e),
                Ok((l, r)) => Ok(((a, l), r)),
            },
        }
}

/// info_type, integrated loudness and digital peak (i16); true peak when
/// bit 0 is set; a u8-counted list of anchored loudness pairs when bit 1 is
/// set; a sized extension (skipped) when any other bit is set.
pub open spec fn spec_loudness_info(s: Seq<u8>, pos: int) -> SpecResult<SpecLoudnessInfo> {
    match spec_read_u8(s, pos) {
        Err(e) => Err(e),
        Ok((info_type, p1)) => match spec_read_i16_be(s, p1) {
            Err(e) => Err(e),
            Ok((integrated_loudness, p2)) => match spec_read_i16_be(s, p2) {
                Err(e) => Err(e),
                Ok((digital_peak, p3)) => {
                    let tp: SpecResult<Option<i16>> = if info_type & LOUDNESS_TRUE_PEAK != 0 {
                        match spec_read_i16_be(s, p3) {
                            Err(e) => Err(e),
                            Ok((v, q)) => Ok((Some(v), q)),
                        }
                    } else {
                        Ok((None, p3))
                    };
                    match tp {
                        Err(e) => Err(e),
                        Ok((true_peak, p4)) => {
                            let anchored: SpecResult<Seq<(u8, i16)>> = if info_type & LOUDNESS_ANCHORED != 0 {
                                match spec_read_u8(s, p4) {
                                    Err(e) => Err(e),
                                    Ok((count, q)) => spec_list(s, q, count as nat, anchor_item()),
                                }
                            } else {
                                Ok((Seq::empty(), p4))
                            };
                            match anchored {
                                Err(e) => Err(e),
                                Ok((anchored_loudness, p5)) => {
                                    let ext: SpecResult<()> = if info_type & 0xfc != 0 {
                                        match spec_read_leb128(s, p5) {
                                            Err(e) => Err(e),
                                            Ok((size, q)) => match spec_read_bytes(s, q, size as int) {
                                                Err(e) => Err(e),
                                                Ok((_, r)) => Ok(((), r)),
                                            },
                                        }
                                    } else {
                                        Ok(((), p5))
                                    };
                                    match ext {
                                        Err(e) => Err(e),
                                        Ok((_, p6)) => Ok(
                                            (
                                                SpecLoudnessInfo {
                                                    info_type,
                                                    integrated_loudness,
                                                    digital_peak,
                                                    true_peak,
                                                    anchored_loudness,
                                                },
                                                p6,
                                            ),
                                        ),
                                    }
                                },
                            }
                        },
                    }
                },
            },
        },
    }
}

pub struct AnchorItem;

impl ReadItem for AnchorItem {
    type Item = (u8, i16);

    open spec fn item(ctx: u32) -> spec_fn(Seq<u8>, int) -> SpecResult<(u8, i16)> {
        anchor_item()
    }

    fn read(r: &mut ByteReader<'_>, ctx: u32) -> (res: Result<(u8, i16), Error>) {
        let anchor = r.read_u8()?;
        let loudness = r.read_i16_be()?;
        assert((anchor, loudness)@ == (anchor, loudness));
        Ok((anchor, loudness))
    }
}

impl LoudnessInfo {
    pub fn parse(r: &mut ByteReader<'_>) -> (res: Result<Self, Error>)
        requires
            old(r).cursor() <= old(r).input().len(),
        ensures
            final(r).input() == old(r).input(),
            final(r).cursor() <= final(r).input().len(),
            agrees(view_res(res), final(r).cursor(), spec_loudness_info(old(r).input(), old(r).cursor())),
    {
        let info_type = r.read_u8()?;
        let integrated_loudness = r.read_i16_be()?;
        let digital_peak = r.read_i16_be()?;
        let true_peak = if info_type & LOUDNESS_TRUE_PEAK != 0 {
            Some(r.read_i16_be()?)
        } else {
            None
        };
        let anchored_loudness = if info_type & LOUDNESS_ANCHORED != 0 {
            let count = r.read_u8()?;
            let pairs = read_list::<AnchorItem>(r, count as usize, 0)?;
            assert(views(pairs@) =~= pairs@);
            pairs
        } else {
            Vec::new()
        };
        if info_type & 0xfc != 0 {
            // Extension bits set: a sized extension region follows.
            let size = r.read_leb128()?;
            r.skip(size as usize)?;
        }
        Ok(LoudnessInfo { info_type, integrated_loudness, digital_peak, true_peak, anchored_loudness })
    }
}

pub struct LayoutItem;

impl ReadItem for LayoutItem {
    type Item = (Layout, LoudnessInfo);

    open spec fn item(ctx: u32) -> spec_fn(Seq<u8>, int) -> SpecResult<(Layout, SpecLoudnessInfo)> {
        |s: Seq<u8>, p: int|
            match spec_layout(s, p) {
                Err(e) => Err(e),
                Ok((layout, q)) => match spec_loudness_info(s, q) {
                    Err(e) => Err(e),
                    Ok((loudness, r)) => Ok(((layout, loudness), r)),
                },
            }
    }

    fn read(r: &mut ByteReader<'_>, ctx: u32) -> (res: Result<(Layout, LoudnessInfo), Error>) {
        let layout = Layout::parse(r)?;
        let loudness = LoudnessInfo::parse(r)?;
        Ok((layout, loudness))
    }
}

#[derive(Debug, Clone, PartialEq, Eq)]
pub struct SubMixElement {
    pub audio_element_id: u32,
    pub localized_annotations: Vec<String>,
    /// rendering_config.
    pub headphones_rendering_mode: u8,
    pub element_mix_gain: MixGainParam,
}

/// A sub-mix element as values.
pub struct SpecSubMixElement {
    pub audio_element_id: u32,
    pub localized_annotations: Seq<Seq<char>>,
    pub headphones_rendering_mode: u8,
    pub element_mix_gain: SpecMixGainParam,
}

impl View for SubMixElement {
    type V = SpecSubMixElement;

    open spec fn view(&self) -> SpecSubMixElement {
        SpecSubMixElement {
            audio_element_id: self.audio_element_id,
            localized_annotations: views(self.localized_annotations@),
            headphones_rendering_mode: self.headphones_rendering_mode,
            element_mix_gain: self.element_mix_gain@,
        }
    }
}

/// audio_element_id (leb128), `count_label` annotations, rendering mode
/// (top 2 bits of a byte), a sized rendering-config extension (skipped),
/// then the element mix gain.
pub open spec fn spec_sub_mix_element(s: Seq<u8>, pos: int, count_label: u32) -> SpecResult<SpecSubMixElement> {
    match spec_read_leb128(s, pos) {
        Err(e) => Err(e),
        Ok((audio_element_id, p1)) => match spec_bounded_list(s, p1, count_label, string_item()) {
            Err(e) => Err(e),
            Ok((localized_annotations, p2)) => match spec_read_u8(s, p2) {
                Err(e) => Err(e),
                Ok((byte, p3)) => match spec_read_leb128(s, p3) {
                    Err(e) => Err(e),
                    Ok((ext, p4)) => match spec_read_bytes(s, p4, ext as int) {
                        Err(e) => Err(e),
                        Ok((_, p5)) => match spec_mix_gain_param(s, p5) {
                            Err(e) => Err(e),
                            Ok((element_mix_gain, p6)) => Ok(
                                (
                                    SpecSubMixElement {
                                        audio_element_id,
                                        localized_annotations,
                                        headphones_rendering_mode: byte >> 6u8 & 0x03,
                                        element_mix_gain,
                                    },
                                    p6,
                                ),
                            ),
                        },
                    },
                },
            },
        },
    }
}

pub struct SubMixElementItem;

impl ReadItem for SubMixElementItem {
    type Item = SubMixElement;

    open spec fn item(ctx: u32) -> spec_fn(Seq<u8>, int) -> SpecResult<SpecSubMixElement> {
        |s: Seq<u8>, p: int| spec_sub_mix_element(s, p, ctx)
    }

    fn read(r: &mut ByteReader<'_>, ctx: u32) -> (res: Result<SubMixElement, Error>) {
        let audio_element_id = r.read_leb128()?;
        let localized_annotations = read_bounded_vec::<StringItem>(r, ctx, 0)?;
        let headphones_rendering_mode = r.read_u8()? >> 6 & 0x03;
        let extension_size = r.read_leb128()?;
        r.skip(extension_size as usize)?;
        let element_mix_gain = MixGainParam::parse(r)?;
        Ok(SubMixElement { audio_element_id, localized_annotations, headphones_rendering_mode, element_mix_gain })
    }
}

#[derive(Debug, Clone, PartialEq, Eq)]
pub struct SubMix {
    pub elements: Vec<SubMixElement>,
    pub output_mix_gain: MixGainParam,
    /// Layouts the mix was authored/measured for, with loudness for each.
    pub layouts: Vec<(Layout, LoudnessInfo)>,
}

/// A sub-mix as values.
pub struct SpecSubMix {
    pub elements: Seq<SpecSubMixElement>,
    pub output_mix_gain: SpecMixGainParam,
    pub layouts: Seq<(Layout, SpecLoudnessInfo)>,
}

impl View for SubMix {
    type V = SpecSubMix;

    open spec fn view(&self) -> SpecSubMix {
        SpecSubMix {
            elements: views(self.elements@),
            output_mix_gain: self.output_mix_gain@,
            layouts: views(self.layouts@),
        }
    }
}

/// num_audio_elements (leb128, nonzero) counted elements, the output mix
/// gain, then num_layouts counted (layout, loudness) pairs.
pub open spec fn spec_sub_mix(s: Seq<u8>, pos: int, count_label: u32) -> SpecResult<SpecSubMix> {
    match spec_read_leb128(s, pos) {
        Err(e) => Err(e),
        Ok((num_elements, p1)) => if num_elements == 0 {
            invalid_at(p1)
        } else {
            match spec_bounded_list(s, p1, num_elements, SubMixElementItem::item(count_label)) {
                Err(e) => Err(e),
                Ok((elements, p2)) => match spec_mix_gain_param(s, p2) {
                    Err(e) => Err(e),
                    Ok((output_mix_gain, p3)) => match spec_read_leb128(s, p3) {
                        Err(e) => Err(e),
                        Ok((num_layouts, p4)) => match spec_bounded_list(s, p4, num_layouts, LayoutItem::item(0)) {
                            Err(e) => Err(e),
                            Ok((layouts, p5)) => Ok((SpecSubMix { elements, output_mix_gain, layouts }, p5)),
                        },
                    },
                },
            }
        },
    }
}

pub struct SubMixItem;

impl ReadItem for SubMixItem {
    type Item = SubMix;

    open spec fn item(ctx: u32) -> spec_fn(Seq<u8>, int) -> SpecResult<SpecSubMix> {
        |s: Seq<u8>, p: int| spec_sub_mix(s, p, ctx)
    }

    fn read(r: &mut ByteReader<'_>, ctx: u32) -> (res: Result<SubMix, Error>) {
        let num_elements = r.read_leb128()?;
        if num_elements == 0 {
            return Err(invalid(r));
        }
        let elements = read_bounded_vec::<SubMixElementItem>(r, num_elements, ctx)?;
        let output_mix_gain = MixGainParam::parse(r)?;
        let num_layouts = r.read_leb128()?;
        let layouts = read_bounded_vec::<LayoutItem>(r, num_layouts, 0)?;
        Ok(SubMix { elements, output_mix_gain, layouts })
    }
}

pub struct TagItem;

impl ReadItem for TagItem {
    type Item = (String, String);

    open spec fn item(ctx: u32) -> spec_fn(Seq<u8>, int) -> SpecResult<(Seq<char>, Seq<char>)> {
        |s: Seq<u8>, p: int|
            match spec_read_string(s, p) {
                Err(e) => Err(e),
                Ok((name, q)) => match spec_read_string(s, q) {
                    Err(e) => Err(e),
                    Ok((value, r)) => Ok(((name, value), r)),
                },
            }
    }

    fn read(r: &mut ByteReader<'_>, ctx: u32) -> (res: Result<(String, String), Error>) {
        let name = r.read_string()?;
        let value = r.read_string()?;
        Ok((name, value))
    }
}

#[derive(Debug, Clone, PartialEq, Eq)]
pub struct MixPresentation {
    pub mix_presentation_id: u32,
    /// BCP-47-ish language tags, one per label.
    pub annotation_languages: Vec<String>,
    pub localized_annotations: Vec<String>,
    pub sub_mixes: Vec<SubMix>,
    /// Mix presentation tags (name, value), when present.
    pub tags: Vec<(String, String)>,
}

/// A mix presentation as values.
pub struct SpecMixPresentation {
    pub mix_presentation_id: u32,
    pub annotation_languages: Seq<Seq<char>>,
    pub localized_annotations: Seq<Seq<char>>,
    pub sub_mixes: Seq<SpecSubMix>,
    pub tags: Seq<(Seq<char>, Seq<char>)>,
}

impl View for MixPresentation {
    type V = SpecMixPresentation;

    open spec fn view(&self) -> SpecMixPresentation {
        SpecMixPresentation {
            mix_presentation_id: self.mix_presentation_id,
            annotation_languages: views(self.annotation_languages@),
            localized_annotations: views(self.localized_annotations@),
            sub_mixes: views(self.sub_mixes@),
            tags: views(self.tags@),
        }
    }
}

/// mix_presentation_id, count_label (leb128), count_label language
/// tags, count_label annotations, num_sub_mixes counted sub-mixes, then,
/// when bytes remain, a u8-counted list of (name, value) string tags.
pub open spec fn spec_mix_presentation(s: Seq<u8>, pos: int) -> SpecResult<SpecMixPresentation> {
    match spec_read_leb128(s, pos) {
        Err(e) => Err(e),
        Ok((mix_presentation_id, p1)) => match spec_read_leb128(s, p1) {
            Err(e) => Err(e),
            Ok((count_label, p2)) => match spec_bounded_list(s, p2, count_label, string_item()) {
                Err(e) => Err(e),
                Ok((annotation_languages, p3)) => match spec_bounded_list(s, p3, count_label, string_item()) {
                    Err(e) => Err(e),
                    Ok((localized_annotations, p4)) => match spec_read_leb128(s, p4) {
                        Err(e) => Err(e),
                        Ok((num_sub_mixes, p5)) => match spec_bounded_list(
                            s,
                            p5,
                            num_sub_mixes,
                            SubMixItem::item(count_label),
                        ) {
                            Err(e) => Err(e),
                            Ok((sub_mixes, p6)) => {
                                let tags: SpecResult<Seq<(Seq<char>, Seq<char>)>> = if p6 < s.len() {
                                    match spec_read_u8(s, p6) {
                                        Err(e) => Err(e),
                                        Ok((num_tags, q)) => spec_list(s, q, num_tags as nat, TagItem::item(0)),
                                    }
                                } else {
                                    Ok((Seq::empty(), p6))
                                };
                                match tags {
                                    Err(e) => Err(e),
                                    Ok((tags, p7)) => Ok(
                                        (
                                            SpecMixPresentation {
                                                mix_presentation_id,
                                                annotation_languages,
                                                localized_annotations,
                                                sub_mixes,
                                                tags,
                                            },
                                            p7,
                                        ),
                                    ),
                                }
                            },
                        },
                    },
                },
            },
        },
    }
}

impl MixPresentation {
    #[verifier::rlimit(40)]
    pub fn parse(r: &mut ByteReader<'_>) -> (res: Result<Self, Error>)
        requires
            old(r).cursor() <= old(r).input().len(),
        ensures
            final(r).input() == old(r).input(),
            final(r).cursor() <= final(r).input().len(),
            agrees(view_res(res), final(r).cursor(), spec_mix_presentation(old(r).input(), old(r).cursor())),
    {
        let mix_presentation_id = r.read_leb128()?;
        let count_label = r.read_leb128()?;
        let annotation_languages = read_bounded_vec::<StringItem>(r, count_label, 0)?;
        let localized_annotations = read_bounded_vec::<StringItem>(r, count_label, 0)?;

        let num_sub_mixes = r.read_leb128()?;
        let sub_mixes = read_bounded_vec::<SubMixItem>(r, num_sub_mixes, count_label)?;

        // Optional trailing tags (added in v1.1): num_tags then name/value
        // C-string pairs.
        let tags = if !r.is_empty() {
            let num_tags = r.read_u8()?;
            read_list::<TagItem>(r, num_tags as usize, 0)?
        } else {
            let none: Vec<(String, String)> = Vec::new();
            assert(views(none@) =~= Seq::<(Seq<char>, Seq<char>)>::empty());
            none
        };

        Ok(MixPresentation {
            mix_presentation_id,
            annotation_languages,
            localized_annotations,
            sub_mixes,
            tags,
        })
    }
}

/// A parsed descriptor OBU payload.
#[derive(Debug, Clone, PartialEq)]
pub enum Descriptor {
    SequenceHeader(SequenceHeader),
    CodecConfig(CodecConfig),
    AudioElement(AudioElement),
    MixPresentation(MixPresentation),
}

/// A descriptor as values.
pub enum SpecDescriptor {
    SequenceHeader(SequenceHeader),
    CodecConfig(SpecCodecConfig),
    AudioElement(SpecAudioElement),
    MixPresentation(SpecMixPresentation),
}

impl View for Descriptor {
    type V = SpecDescriptor;

    open spec fn view(&self) -> SpecDescriptor {
        match self {
            Descriptor::SequenceHeader(h) => SpecDescriptor::SequenceHeader(*h),
            Descriptor::CodecConfig(c) => SpecDescriptor::CodecConfig(c@),
            Descriptor::AudioElement(e) => SpecDescriptor::AudioElement(e@),
            Descriptor::MixPresentation(m) => SpecDescriptor::MixPresentation(m@),
        }
    }
}

/// The descriptor an OBU carries: sequence headers, codec configs, audio
/// elements and mix presentations are parsed from the payload start; other
/// OBU types carry none.
pub open spec fn spec_descriptor(obu: SpecObu) -> Result<Option<SpecDescriptor>, Error> {
    let s = obu.payload;
    let wrap = |r: SpecResult<SpecDescriptor>|
        match r {
            Ok((d, _)) => Ok(Some(d)),
            Err(e) => Err(e),
        };
    match obu.header.obu_type {
        ObuType::SequenceHeader => wrap(
            match spec_sequence_header(s, 0) {
                Ok((h, p)) => Ok((SpecDescriptor::SequenceHeader(h), p)),
                Err(e) => Err(e),
            },
        ),
        ObuType::CodecConfig => wrap(
            match spec_codec_config(s, 0) {
                Ok((c, p)) => Ok((SpecDescriptor::CodecConfig(c), p)),
                Err(e) => Err(e),
            },
        ),
        ObuType::AudioElement => wrap(
            match spec_audio_element(s, 0) {
                Ok((e, p)) => Ok((SpecDescriptor::AudioElement(e), p)),
                Err(e) => Err(e),
            },
        ),
        ObuType::MixPresentation => wrap(
            match spec_mix_presentation(s, 0) {
                Ok((m, p)) => Ok((SpecDescriptor::MixPresentation(m), p)),
                Err(e) => Err(e),
            },
        ),
        _ => Ok(None),
    }
}

pub open spec fn view_opt_res(res: Result<Option<Descriptor>, Error>) -> Result<Option<SpecDescriptor>, Error> {
    match res {
        Ok(Some(d)) => Ok(Some(d@)),
        Ok(None) => Ok(None),
        Err(e) => Err(e),
    }
}

/// Parses the payload of a descriptor OBU. Returns `None` for OBU types that
/// are not descriptors (audio frames, parameter blocks, temporal delimiters).
pub fn parse(obu: &Obu<'_>) -> (res: Result<Option<Descriptor>, Error>)
    ensures
        view_opt_res(res) == spec_descriptor(obu@),
{
    let mut r = ByteReader::new(obu.payload);
    let descriptor = match obu.header.obu_type {
        ObuType::SequenceHeader => Descriptor::SequenceHeader(SequenceHeader::parse(&mut r)?),
        ObuType::CodecConfig => Descriptor::CodecConfig(CodecConfig::parse(&mut r)?),
        ObuType::AudioElement => Descriptor::AudioElement(AudioElement::parse(&mut r)?),
        ObuType::MixPresentation => Descriptor::MixPresentation(MixPresentation::parse(&mut r)?),
        _ => return Ok(None),
    };
    Ok(Some(descriptor))
}

// ---------------------------------------------------------------------------
// Lookups by id
// ---------------------------------------------------------------------------

/// Position of the first element with `id`.
pub open spec fn element_index(elements: Seq<SpecAudioElement>, id: u32) -> Option<int> {
    if exists|i: int| 0 <= i < elements.len() && elements[i].audio_element_id == id {
        Some(
            choose|i: int|
                0 <= i < elements.len() && elements[i].audio_element_id == id && forall|j: int|
                    0 <= j < i ==> elements[j].audio_element_id != id,
        )
    } else {
        None
    }
}

/// Position of the first codec config with `id`.
pub open spec fn codec_config_index(configs: Seq<SpecCodecConfig>, id: u32) -> Option<int> {
    if exists|i: int| 0 <= i < configs.len() && configs[i].codec_config_id == id {
        Some(
            choose|i: int|
                0 <= i < configs.len() && configs[i].codec_config_id == id && forall|j: int|
                    0 <= j < i ==> configs[j].codec_config_id != id,
        )
    } else {
        None
    }
}

/// Position of the first mix presentation with `id`.
pub open spec fn mix_index(mixes: Seq<SpecMixPresentation>, id: u32) -> Option<int> {
    if exists|i: int| 0 <= i < mixes.len() && mixes[i].mix_presentation_id == id {
        Some(
            choose|i: int|
                0 <= i < mixes.len() && mixes[i].mix_presentation_id == id && forall|j: int|
                    0 <= j < i ==> mixes[j].mix_presentation_id != id,
        )
    } else {
        None
    }
}

proof fn lemma_least_mix(mixes: Seq<SpecMixPresentation>, id: u32, w: int)
    requires
        0 <= w < mixes.len(),
        mixes[w].mix_presentation_id == id,
    ensures
        exists|i: int|
            0 <= i < mixes.len() && mixes[i].mix_presentation_id == id && forall|j: int|
                0 <= j < i ==> mixes[j].mix_presentation_id != id,
    decreases w,
{
    if exists|j: int| 0 <= j < w && mixes[j].mix_presentation_id == id {
        let j = choose|j: int| 0 <= j < w && mixes[j].mix_presentation_id == id;
        lemma_least_mix(mixes, id, j);
    } else {
        assert(forall|j: int| 0 <= j < w ==> mixes[j].mix_presentation_id != id);
    }
}

/// The signed big-endian 16-bit value of the bytes `hi`, `lo`.
pub open spec fn be_i16_value(hi: u8, lo: u8) -> int {
    let u = hi * 256 + lo;
    if u < 32768 {
        u
    } else {
        u - 65536
    }
}

/// A channel layer's first byte carries the loudspeaker layout in its
/// high nibble, output_gain_is_present in bit 3 and recon_gain_is_present
/// in bit 2; substream and coupled counts follow. Without the output-gain
/// bit the layer is those three bytes; with it, a flags byte (its high six
/// bits) and a big-endian i16 gain follow.
pub proof fn lemma_channel_layer_bytes(s: Seq<u8>, pos: int, index: nat)
    requires
        0 <= pos,
        pos + 3 <= s.len(),
        !(index == 0 && s[pos] / 16 == 15),
    ensures
        s[pos] & 0x08 == 0 ==> spec_channel_layer(s, pos, index) == Ok::<(ChannelAudioLayer, int), Error>(
            (
                ChannelAudioLayer {
                    loudspeaker_layout: s[pos] / 16,
                    substream_count: s[pos + 1],
                    coupled_substream_count: s[pos + 2],
                    recon_gain_is_present: s[pos] & 0x04 != 0,
                    output_gain: None,
                    expanded_loudspeaker_layout: None,
                },
                pos + 3,
            ),
        ),
        s[pos] & 0x08 != 0 && pos + 6 <= s.len() ==> ({
            let r = spec_channel_layer(s, pos, index);
            let l = r->Ok_0.0;
            &&& r is Ok
            &&& r->Ok_0.1 == pos + 6
            &&& l.loudspeaker_layout == s[pos] / 16
            &&& l.substream_count == s[pos + 1]
            &&& l.coupled_substream_count == s[pos + 2]
            &&& l.recon_gain_is_present == (s[pos] & 0x04 != 0)
            &&& l.output_gain is Some
            &&& l.output_gain->Some_0.0 == s[pos + 3] / 4
            &&& l.output_gain->Some_0.1 as int == be_i16_value(s[pos + 4], s[pos + 5])
            &&& l.expanded_loudspeaker_layout is None
        }),
        s[pos] & 0x08 != 0 && pos + 6 > s.len() ==> spec_channel_layer(s, pos, index) is Err,
{
    let b = s[pos];
    assert(b >> 4u8 & 0x0f == b / 16 && (b >> 3u8 & 0x01 != 0) == (b & 0x08 != 0) && (b >> 2u8 & 0x01 != 0) == (b & 0x04
        != 0)) by (bit_vector);
    if b & 0x08 != 0 && pos + 6 <= s.len() {
        let f = s[pos + 3];
        assert(f >> 2u8 & 0x3f == f / 4) by (bit_vector);
        assert(s.subrange(pos + 4, pos + 6)[0] == s[pos + 4]);
        assert(s.subrange(pos + 4, pos + 6)[1] == s[pos + 5]);
    }
}

/// The position of the first mix presentation with `id` is in range and
/// carries that id.
pub proof fn lemma_mix_index_bounds(mixes: Seq<SpecMixPresentation>, id: u32)
    ensures
        mix_index(mixes, id) matches Some(i) ==> 0 <= i < mixes.len() && mixes[i].mix_presentation_id == id,
{
    if exists|i: int| 0 <= i < mixes.len() && mixes[i].mix_presentation_id == id {
        let w = choose|i: int| 0 <= i < mixes.len() && mixes[i].mix_presentation_id == id;
        lemma_least_mix(mixes, id, w);
    }
}

/// Finds the first element with `id`.
pub(crate) fn find_element(elements: &[AudioElement], id: u32) -> (res: Option<usize>)
    ensures
        match res {
            Some(i) => element_index(views(elements@), id) == Some(i as int) && i < elements@.len(),
            None => element_index(views(elements@), id) is None,
        },
{
    let ghost es = views(elements@);
    let mut i: usize = 0;
    while i < elements.len()
        invariant
            es == views(elements@),
            i <= elements@.len(),
            forall|j: int| 0 <= j < i ==> es[j].audio_element_id != id,
        decreases elements.len() - i,
    {
        if elements[i].audio_element_id == id {
            proof {
                assert(es[i as int].audio_element_id == id);
                let k = choose|k: int|
                    0 <= k < es.len() && es[k].audio_element_id == id && forall|j: int| 0 <= j < k ==> es[j].audio_element_id != id;
                assert(k == i);
            }
            return Some(i);
        }
        i = i + 1;
    }
    None
}

/// Finds the first codec config with `id`.
pub(crate) fn find_codec_config(configs: &[CodecConfig], id: u32) -> (res: Option<usize>)
    ensures
        match res {
            Some(i) => codec_config_index(views(configs@), id) == Some(i as int) && i < configs@.len(),
            None => codec_config_index(views(configs@), id) is None,
        },
{
    let ghost cs = views(configs@);
    let mut i: usize = 0;
    while i < configs.len()
        invariant
            cs == views(configs@),
            i <= configs@.len(),
            forall|j: int| 0 <= j < i ==> cs[j].codec_config_id != id,
        decreases configs.len() - i,
    {
        if configs[i].codec_config_id == id {
            proof {
                assert(cs[i as int].codec_config_id == id);
                let k = choose|k: int|
                    0 <= k < cs.len() && cs[k].codec_config_id == id && forall|j: int| 0 <= j < k ==> cs[j].codec_config_id != id;
                assert(k == i);
            }
            return Some(i);
        }
        i = i + 1;
    }
    None
}

/// Finds the first mix presentation with `id`.
pub(crate) fn find_mix(mixes: &[MixPresentation], id: u32) -> (res: Option<usize>)
    ensures
        match res {
            Some(i) => mix_index(views(mixes@), id) == Some(i as int) && i < mixes@.len(),
            None => mix_index(views(mixes@), id) is None,
        },
{
    let ghost ms = views(mixes@);
    let mut i: usize = 0;
    while i < mixes.len()
        invariant
            ms == views(mixes@),
            i <= mixes@.len(),
            forall|j: int| 0 <= j < i ==> ms[j].mix_presentation_id != id,
        decreases mixes.len() - i,
    {
        if mixes[i].mix_presentation_id == id {
            proof {
                assert(ms[i as int].mix_presentation_id == id);
                let k = choose|k: int|
                    0 <= k < ms.len() && ms[k].mix_presentation_id == id && forall|j: int| 0 <= j < k ==> ms[j].mix_presentation_id != id;
                assert(k == i);
            }
            return Some(i);
        }
        i = i + 1;
    }
    None
}

/// 128 to the power `n`.
pub open spec fn pow128_u(n: nat) -> nat
    decreases n,
{
    if n == 0 {
        1
    } else {
        128 * pow128_u((n - 1) as nat)
    }
}

} // verus!
