//! What the substream codecs decide before and around decoding: which
//! codec configs each adapter supports, the parameters it opens its codec
//! with, and LPCM's integer sample decoding.

use vstd::prelude::*;

use crate::decode_error::DecodeError;
use crate::descriptors::{CodecConfig, CodecId, DecoderConfig, SpecCodecConfig, SpecCodecId, SpecDecoderConfig};
use crate::error::{decimal, format_two_numbers};
use crate::reader::be32;

verus! {

// ---------------------------------------------------------------------------
// LPCM (ipcm)
// ---------------------------------------------------------------------------

#[derive(Debug, Clone, Copy, PartialEq, Eq, Structural)]
pub enum SampleFormat {
    S16,
    S24,
    S32,
}

impl SampleFormat {
    pub open spec fn spec_bytes_per_sample(self) -> nat {
        match self {
            SampleFormat::S16 => 2,
            SampleFormat::S24 => 3,
            SampleFormat::S32 => 4,
        }
    }

    pub fn bytes_per_sample(self) -> (n: usize)
        ensures
            n == self.spec_bytes_per_sample(),
    {
        match self {
            SampleFormat::S16 => 2,
            SampleFormat::S24 => 3,
            SampleFormat::S32 => 4,
        }
    }
}

/// Two's complement reading of the low `bits` bits of `raw`.
pub open spec fn signed(raw: nat, bits: nat) -> int {
    if raw < vstd::arithmetic::power2::pow2((bits - 1) as nat) {
        raw as int
    } else {
        raw - vstd::arithmetic::power2::pow2(bits)
    }
}

/// One sample as a 32-bit integer, full scale at `i32::MIN..=i32::MAX`:
/// 16- and 24-bit samples are shifted up to the top of the word.
pub open spec fn spec_pcm_value(format: SampleFormat, little_endian: bool, b: Seq<u8>) -> int {
    match format {
        SampleFormat::S16 => {
            let raw = if little_endian {
                b[1] * 256 + b[0]
            } else {
                b[0] * 256 + b[1]
            };
            signed(raw as nat, 16) * 65536
        },
        SampleFormat::S24 => {
            let raw = if little_endian {
                b[2] * 65536 + b[1] * 256 + b[0]
            } else {
                b[0] * 65536 + b[1] * 256 + b[2]
            };
            signed(raw as nat, 24) * 256
        },
        SampleFormat::S32 => {
            let raw = if little_endian {
                b[3] * 0x1000000 + b[2] * 65536 + b[1] * 256 + b[0]
            } else {
                b[0] * 0x1000000 + b[1] * 65536 + b[2] * 256 + b[3]
            };
            signed(raw as nat, 32)
        },
    }
}

/// Decodes interleaved little- or big-endian integer PCM.
///
/// IAMF's `sample_format_flags` selects endianness; sample size is 16, 24,
/// or 32 bits.
#[derive(Debug)]
pub struct PcmDecoder {
    format: SampleFormat,
    little_endian: bool,
    channels: u8,
    sample_rate: u32,
}

impl PcmDecoder {
    pub closed spec fn format(&self) -> SampleFormat {
        self.format
    }

    pub closed spec fn little_endian(&self) -> bool {
        self.little_endian
    }

    pub closed spec fn channels(&self) -> u8 {
        self.channels
    }

    pub closed spec fn sample_rate(&self) -> u32 {
        self.sample_rate
    }

    pub fn new(format: SampleFormat, little_endian: bool, channels: u8, sample_rate: u32) -> (d: Self)
        ensures
            d.format() == format,
            d.little_endian() == little_endian,
            d.channels() == channels,
            d.sample_rate() == sample_rate,
    {
        Self { format, little_endian, channels, sample_rate }
    }

    /// Channel count of the decoded frames.
    pub fn output_channels(&self) -> (c: u8)
        ensures
            c == self.channels(),
    {
        self.channels
    }

    /// Sample rate of the decoded frames.
    pub fn output_sample_rate(&self) -> (r: u32)
        ensures
            r == self.sample_rate(),
    {
        self.sample_rate
    }

    fn sample_value(&self, packet: &[u8], at: usize) -> (v: i32)
        requires
            at + self.format().spec_bytes_per_sample() <= packet@.len(),
        ensures
            v == spec_pcm_value(
                self.format(),
                self.little_endian(),
                packet@.subrange(at as int, at + self.format().spec_bytes_per_sample()),
            ),
    {
        let ghost b = packet@.subrange(at as int, at + self.format().spec_bytes_per_sample());
        proof {
            vstd::arithmetic::power2::lemma2_to64();
        }
        let _len = packet.len();
        match self.format {
            SampleFormat::S16 => {
                assert(at + 2 <= packet@.len());
                let raw: i32 = if self.little_endian {
                    packet[at + 1] as i32 * 256 + packet[at] as i32
                } else {
                    packet[at] as i32 * 256 + packet[at + 1] as i32
                };
                let s = if raw < 32768 {
                    raw
                } else {
                    raw - 65536
                };
                s * 65536
            },
            SampleFormat::S24 => {
                assert(at + 3 <= packet@.len());
                let raw: i32 = if self.little_endian {
                    packet[at + 2] as i32 * 65536 + packet[at + 1] as i32 * 256 + packet[at] as i32
                } else {
                    packet[at] as i32 * 65536 + packet[at + 1] as i32 * 256 + packet[at + 2] as i32
                };
                let s = if raw < 0x80_0000 {
                    raw
                } else {
                    raw - 0x100_0000
                };
                s * 256
            },
            SampleFormat::S32 => {
                assert(at + 4 <= packet@.len());
                let raw: i64 = if self.little_endian {
                    packet[at + 3] as i64 * 0x100_0000 + packet[at + 2] as i64 * 65536 + packet[at + 1] as i64
                        * 256 + packet[at] as i64
                } else {
                    packet[at] as i64 * 0x100_0000 + packet[at + 1] as i64 * 65536 + packet[at + 2] as i64 * 256
                        + packet[at + 3] as i64
                };
                let s = if raw < 0x8000_0000 {
                    raw
                } else {
                    raw - 0x1_0000_0000
                };
                s as i32
            },
        }
    }

    /// Decodes one packet to integer samples (interleaved, full scale at
    /// the `i32` range). A packet that is not a whole number of frames
    /// (one sample per channel) is corrupt.
    pub fn decode_samples(&self, packet: &[u8]) -> (r: Result<Vec<i32>, DecodeError>)
        requires
            self.channels() > 0,
        ensures
            ({
                let bps = self.format().spec_bytes_per_sample();
                let frame = (bps * self.channels()) as nat;
                match r {
                    Ok(v) => packet@.len() % frame == 0 && v@.len() == packet@.len() / bps && forall|k: int|
                        0 <= k < v@.len() ==> #[trigger] v@[k] == spec_pcm_value(
                            self.format(),
                            self.little_endian(),
                            packet@.subrange(k * bps, k * bps + bps),
                        ),
                    Err(DecodeError::CorruptPacket(m)) => packet@.len() % frame != 0 && m@ == "packet length "@
                        + decimal(packet@.len()) + " not a multiple of frame size "@ + decimal(frame) + ""@,
                    Err(_) => false,
                }
            }),
    {
        let bps = self.format.bytes_per_sample();
        let frame_bytes = bps * self.channels as usize;
        if packet.len() % frame_bytes != 0 {
            return Err(
                DecodeError::CorruptPacket(
                    format_two_numbers("packet length ", packet.len(), " not a multiple of frame size ", frame_bytes, ""),
                ),
            );
        }
        let len = packet.len();
        let count = len / bps;
        let mut out: Vec<i32> = Vec::new();
        let mut k: usize = 0;
        let mut at: usize = 0;
        while k < count
            invariant
                len == packet@.len(),
                bps == self.format().spec_bytes_per_sample(),
                count == packet@.len() / (bps as nat),
                k <= count,
                at == k * bps,
                out@.len() == k,
                forall|j: int|
                    0 <= j < k ==> #[trigger] out@[j] == spec_pcm_value(
                        self.format(),
                        self.little_endian(),
                        packet@.subrange(j * bps, j * bps + bps),
                    ),
            decreases count - k,
        {
            assert(at + bps <= packet@.len()) by (nonlinear_arith)
                requires
                    at == k * bps,
                    k < count,
                    count == packet@.len() / (bps as nat),
                    bps > 0,
            ;
            out.push(self.sample_value(packet, at));
            k = k + 1;
            at = at + bps;
        }
        Ok(out)
    }
}

/// The LPCM adapter supports LPCM configs of 16, 24 or 32 bits.
pub open spec fn spec_pcm_supports(c: SpecCodecConfig) -> bool {
    &&& c.codec_id is Lpcm
    &&& c.decoder_config matches SpecDecoderConfig::Lpcm { sample_size, .. } && (sample_size == 16 || sample_size
        == 24 || sample_size == 32)
}

#[derive(Debug, Clone, Copy, Default)]
pub struct PcmFactory;

impl PcmFactory {
    pub fn supports(&self, config: &CodecConfig) -> (b: bool)
        ensures
            b == spec_pcm_supports(config@),
    {
        match (&config.codec_id, &config.decoder_config) {
            (CodecId::Lpcm, DecoderConfig::Lpcm { sample_size, .. }) => *sample_size == 16 || *sample_size == 24
                || *sample_size == 32,
            _ => false,
        }
    }

    /// The decoder for a substream of `channels` channels of an LPCM
    /// config; other configs and sample sizes are unsupported.
    pub fn create(&self, config: &CodecConfig, channels: u8) -> (r: Result<PcmDecoder, DecodeError>)
        ensures
            match r {
                Ok(d) => config@.decoder_config matches SpecDecoderConfig::Lpcm {
                    little_endian,
                    sample_size,
                    sample_rate,
                } && d.format() == (if sample_size == 16 {
                    SampleFormat::S16
                } else if sample_size == 24 {
                    SampleFormat::S24
                } else {
                    SampleFormat::S32
                }) && (sample_size == 16 || sample_size == 24 || sample_size == 32) && d.little_endian()
                    == little_endian && d.sample_rate() == sample_rate && d.channels() == channels,
                Err(e) => e == DecodeError::UnsupportedCodec && !(config@.decoder_config matches SpecDecoderConfig::Lpcm {
                    sample_size,
                    ..
                } && (sample_size == 16 || sample_size == 24 || sample_size == 32)),
            },
    {
        let (little_endian, sample_size, sample_rate) = match &config.decoder_config {
            DecoderConfig::Lpcm { little_endian, sample_size, sample_rate } => (
                *little_endian,
                *sample_size,
                *sample_rate,
            ),
            _ => return Err(DecodeError::UnsupportedCodec),
        };
        let format = match sample_size {
            16 => SampleFormat::S16,
            24 => SampleFormat::S24,
            32 => SampleFormat::S32,
            _ => return Err(DecodeError::UnsupportedCodec),
        };
        Ok(PcmDecoder::new(format, little_endian, channels, sample_rate))
    }
}

// ---------------------------------------------------------------------------
// Opus
// ---------------------------------------------------------------------------

/// IAMF timing is defined at 48 kHz for Opus streams, so substreams are
/// always decoded at 48 kHz regardless of the encoder's input rate.
pub const OPUS_SAMPLE_RATE: u32 = 48000;

/// Largest possible Opus frame: 120 ms at 48 kHz.
pub const OPUS_MAX_FRAME_SAMPLES: usize = 5760;

/// Opus configs of version 1; like Ogg Opus readers, versions up to 15
/// are treated as backwards compatible.
pub open spec fn spec_opus_supports(c: SpecCodecConfig) -> bool {
    &&& c.codec_id is Opus
    &&& c.decoder_config matches SpecDecoderConfig::Opus { version, .. } && version <= 15
}

pub fn opus_supports(config: &CodecConfig) -> (b: bool)
    ensures
        b == spec_opus_supports(config@),
{
    match (&config.codec_id, &config.decoder_config) {
        (CodecId::Opus, DecoderConfig::Opus { version, .. }) => *version <= 15,
        _ => false,
    }
}

/// IAMF substreams are mono or coupled stereo only.
pub fn validate_channels(channels: u8) -> (r: Result<(), DecodeError>)
    ensures
        match r {
            Ok(()) => 1 <= channels <= 2,
            Err(e) => e == DecodeError::UnsupportedCodec && !(1 <= channels <= 2),
        },
{
    if 1 <= channels && channels <= 2 {
        Ok(())
    } else {
        Err(DecodeError::UnsupportedCodec)
    }
}

/// A libopus error code.
#[derive(Debug, Clone, Copy, PartialEq, Eq, Structural)]
pub struct OpusError(pub i32);

/// The pure-Rust Opus adapter.
#[derive(Debug, Clone, Copy, Default)]
pub struct OpusFactory;

/// The libopus adapter.
#[derive(Debug, Clone, Copy, Default)]
pub struct OpusFfiFactory;

impl OpusFactory {
    pub fn supports(&self, config: &CodecConfig) -> (b: bool)
        ensures
            b == spec_opus_supports(config@),
    {
        opus_supports(config)
    }
}

impl OpusFfiFactory {
    pub fn supports(&self, config: &CodecConfig) -> (b: bool)
        ensures
            b == spec_opus_supports(config@),
    {
        opus_supports(config)
    }
}

// ---------------------------------------------------------------------------
// FLAC
// ---------------------------------------------------------------------------

pub open spec fn spec_flac_supports(c: SpecCodecConfig) -> bool {
    c.codec_id is Flac && c.decoder_config is Flac
}

#[derive(Debug, Clone, Copy, Default)]
pub struct FlacFactory;

impl FlacFactory {
    pub fn supports(&self, config: &CodecConfig) -> (b: bool)
        ensures
            b == spec_flac_supports(config@),
    {
        match (&config.codec_id, &config.decoder_config) {
            (CodecId::Flac, DecoderConfig::Flac { .. }) => true,
            _ => false,
        }
    }

    /// The STREAMINFO block and sample rate a substream's FLAC codec is
    /// opened with. The codec-config STREAMINFO describes the whole
    /// element; each substream is mono or stereo, so the channel count
    /// field (bits 100..103 of the block, holding channels − 1) is patched
    /// to this substream's width.
    pub fn codec_parameters(&self, config: &CodecConfig, channels: u8) -> (r: Result<(Vec<u8>, u32), DecodeError>)
        requires
            channels >= 1,
        ensures
            match r {
                Ok((info, rate)) => config@.decoder_config matches SpecDecoderConfig::Flac {
                    sample_rate,
                    streaminfo,
                    ..
                } && rate == sample_rate && info@ == (if streaminfo.len() >= 13 {
                    streaminfo.update(12, (streaminfo[12] & !0x0eu8) | (((channels - 1) as u8) << 1u8))
                } else {
                    streaminfo
                }),
                Err(e) => e == DecodeError::UnsupportedCodec && !(config@.decoder_config is Flac),
            },
    {
        match &config.decoder_config {
            DecoderConfig::Flac { sample_rate, streaminfo, .. } => {
                let mut info = streaminfo.clone();
                assert(info@ == streaminfo@);
                if info.len() >= 13 {
                    let patched = (info[12] & !0x0e) | ((channels - 1) << 1);
                    info.set(12, patched);
                }
                Ok((info, *sample_rate))
            },
            _ => Err(DecodeError::UnsupportedCodec),
        }
    }
}

// ---------------------------------------------------------------------------
// AAC-LC
// ---------------------------------------------------------------------------

/// AudioSpecificConfig samplingFrequencyIndex → Hz.
pub open spec fn asc_rate_table(index: u32) -> Option<u32> {
    if index == 0 {
        Some(96000)
    } else if index == 1 {
        Some(88200)
    } else if index == 2 {
        Some(64000)
    } else if index == 3 {
        Some(48000)
    } else if index == 4 {
        Some(44100)
    } else if index == 5 {
        Some(32000)
    } else if index == 6 {
        Some(24000)
    } else if index == 7 {
        Some(22050)
    } else if index == 8 {
        Some(16000)
    } else if index == 9 {
        Some(12000)
    } else if index == 10 {
        Some(11025)
    } else if index == 11 {
        Some(8000)
    } else if index == 12 {
        Some(7350)
    } else {
        None
    }
}

fn asc_rate_for_index(index: u32) -> (r: Option<u32>)
    ensures
        r == asc_rate_table(index),
{
    match index {
        0 => Some(96000),
        1 => Some(88200),
        2 => Some(64000),
        3 => Some(48000),
        4 => Some(44100),
        5 => Some(32000),
        6 => Some(24000),
        7 => Some(22050),
        8 => Some(16000),
        9 => Some(12000),
        10 => Some(11025),
        11 => Some(8000),
        12 => Some(7350),
        _ => None,
    }
}

/// The first four bytes of an AudioSpecificConfig as a big-endian word
/// (missing bytes read as zero).
pub open spec fn asc_word(asc: Seq<u8>) -> u32 {
    be32(
        seq![
            asc[0],
            if asc.len() > 1 {
                asc[1]
            } else {
                0u8
            },
            if asc.len() > 2 {
                asc[2]
            } else {
                0u8
            },
            if asc.len() > 3 {
                asc[3]
            } else {
                0u8
            },
        ],
    )
}

/// The sample rate an AudioSpecificConfig declares: after the 5-bit
/// audioObjectType, a 4-bit samplingFrequencyIndex into the standard table,
/// or 15 for an explicit 24-bit frequency. `None` for an empty config or a
/// reserved index.
pub open spec fn spec_asc_sample_rate(asc: Seq<u8>) -> Option<u32> {
    if asc.len() == 0 {
        None
    } else {
        let bits = asc_word(asc);
        let index = (bits >> 23u32) & 0x0f;
        if index == 0x0f {
            Some((bits >> 7u32) & 0xff_ffff)
        } else {
            asc_rate_table(index)
        }
    }
}

pub fn asc_sample_rate(asc: &[u8]) -> (r: Option<u32>)
    ensures
        r == spec_asc_sample_rate(asc@),
{
    if asc.len() == 0 {
        return None;
    }
    let b1 = if asc.len() > 1 {
        asc[1]
    } else {
        0
    };
    let b2 = if asc.len() > 2 {
        asc[2]
    } else {
        0
    };
    let b3 = if asc.len() > 3 {
        asc[3]
    } else {
        0
    };
    let bits = asc[0] as u32 * 0x100_0000 + b1 as u32 * 0x1_0000 + b2 as u32 * 0x100 + b3 as u32;
    assert(bits == asc_word(asc@));
    let index = (bits >> 23) & 0x0f;
    if index == 0x0f {
        Some((bits >> 7) & 0xff_ffff)
    } else {
        asc_rate_for_index(index)
    }
}

pub open spec fn spec_aac_supports(c: SpecCodecConfig) -> bool {
    c.codec_id is AacLc && c.decoder_config is AacLc
}

#[derive(Debug, Clone, Copy, Default)]
pub struct AacFactory;

impl AacFactory {
    pub fn supports(&self, config: &CodecConfig) -> (b: bool)
        ensures
            b == spec_aac_supports(config@),
    {
        match (&config.codec_id, &config.decoder_config) {
            (CodecId::AacLc, DecoderConfig::AacLc { .. }) => true,
            _ => false,
        }
    }

    /// The AudioSpecificConfig and sample rate a substream's AAC codec is
    /// opened with: the rate the config declares (else the config is
    /// corrupt), and the config with its channelConfiguration (4 bits after
    /// an ordinary frequency index) patched to this substream's width.
    pub fn codec_parameters(&self, config: &CodecConfig, channels: u8) -> (r: Result<(Vec<u8>, u32), DecodeError>)
        ensures
            match r {
                Ok((asc, rate)) => config@.decoder_config matches SpecDecoderConfig::AacLc { audio_specific_config }
                    && spec_asc_sample_rate(audio_specific_config) == Some(rate) && asc@ == (if audio_specific_config.len()
                    >= 2 && (audio_specific_config[0] & 0x07) != 0x07 {
                    audio_specific_config.update(
                        1,
                        (audio_specific_config[1] & !0x78u8) | (channels << 3u8),
                    )
                } else {
                    audio_specific_config
                }),
                Err(DecodeError::UnsupportedCodec) => !(config@.decoder_config is AacLc),
                Err(DecodeError::CorruptPacket(m)) => config@.decoder_config matches SpecDecoderConfig::AacLc {
                    audio_specific_config,
                } && spec_asc_sample_rate(audio_specific_config) is None && m@ == "bad AudioSpecificConfig"@,
                Err(_) => false,
            },
    {
        match &config.decoder_config {
            DecoderConfig::AacLc { audio_specific_config } => {
                let sample_rate = match asc_sample_rate(audio_specific_config) {
                    Some(r) => r,
                    None => return Err(DecodeError::CorruptPacket("bad AudioSpecificConfig".to_owned())),
                };
                let mut asc = audio_specific_config.clone();
                assert(asc@ == audio_specific_config@);
                if asc.len() >= 2 && (asc[0] & 0x07) != 0x07 {
                    let patched = (asc[1] & !0x78) | (channels << 3);
                    asc.set(1, patched);
                }
                Ok((asc, sample_rate))
            },
            _ => Err(DecodeError::UnsupportedCodec),
        }
    }
}

// ---------------------------------------------------------------------------
// All adapters
// ---------------------------------------------------------------------------

/// Factory over every codec adapter.
#[derive(Debug, Clone, Copy, Default)]
pub struct DefaultFactory;

impl DefaultFactory {
    pub fn supports(&self, config: &CodecConfig) -> (b: bool)
        ensures
            b == (spec_pcm_supports(config@) || spec_opus_supports(config@) || spec_flac_supports(config@)
                || spec_aac_supports(config@)),
    {
        if PcmFactory.supports(config) {
            return true;
        }
        if OpusFfiFactory.supports(config) {
            return true;
        }
        if OpusFactory.supports(config) {
            return true;
        }
        if FlacFactory.supports(config) {
            return true;
        }
        if AacFactory.supports(config) {
            return true;
        }
        false
    }
}

} // verus!
