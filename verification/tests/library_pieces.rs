use iamf::binaural::{BinauralInput, FilterProfile};
use iamf::codecs::{
    asc_sample_rate, opus_supports, validate_channels, AacFactory, DefaultFactory, FlacFactory, OpusFactory,
    PcmDecoder, PcmFactory, SampleFormat,
};
use iamf::decode_error::DecodeError;
use iamf::demo::{descriptors, generate, leb128, obu, FRAME};
use iamf::descriptors::{CodecConfig, CodecId, DecoderConfig, SequenceHeader};
use iamf::element::FramePcm;
use iamf::error::Error;
use iamf::layout::{Layout, SoundSystem};
use iamf::leb128::decode;
use iamf::obu::ObuType;
use iamf::player::{descriptor_split, parse_mix_info};
use iamf::presentation::{apply_trim_map, trim_map_of, Descriptors};
use iamf::profile::ProfileSet;
use iamf::reader::ByteReader;
use iamf::reconstruct::{deinterleave, hoa_order, hoa_order_index, HoaOrder};
use iamf::stream::{
    auto_sample_type, check_declared_profiles, check_substream_count, next_obu, stream_sample_rate, supported_mixes,
    OutputSampleType,
};

fn lpcm(id: u32, sample_size: u8) -> CodecConfig {
    CodecConfig {
        codec_config_id: id,
        codec_id: CodecId::Lpcm,
        num_samples_per_frame: 64,
        audio_roll_distance: 0,
        decoder_config: DecoderConfig::Lpcm { little_endian: true, sample_size, sample_rate: 44100 },
    }
}

// -- Errors and their messages --------------------------------------------

#[test]
fn error_messages() {
    assert_eq!(Error::UnexpectedEof { offset: 3 }.message(), "unexpected end of input at byte 3");
    assert_eq!(Error::InvalidLeb128 { offset: 120 }.message(), "invalid leb128 at byte 120");
    assert_eq!(Error::ReservedObuType { obu_type: 25, offset: 7 }.message(), "reserved OBU type 25 at byte 7");
}

#[test]
fn invalid_utf8_is_replaced() {
    let mut r = ByteReader::new(b"a\xffb\0rest");
    assert_eq!(r.read_string().unwrap(), "a\u{fffd}b");
    assert_eq!(r.position(), 4);
}

// -- Writing IAMF ---------------------------------------------------------

#[test]
fn written_leb128_reads_back() {
    for value in [0u32, 1, 127, 128, 300, 16383, 16384, 960, 48000, u32::MAX] {
        let mut out = Vec::new();
        leb128(&mut out, value);
        out.extend_from_slice(&[0xaa, 0xbb]);
        let (v, n) = decode(&out, 0).unwrap();
        assert_eq!(v, value);
        assert_eq!(n, out.len() - 2);
    }
    let mut out = Vec::new();
    leb128(&mut out, 960);
    assert_eq!(out, vec![0xc0, 0x07]);
}

#[test]
fn obu_framing() {
    let mut out = vec![0x11];
    obu(&mut out, 31, b"iamf\0\0");
    assert_eq!(out, vec![0x11, 31 << 3, 6, b'i', b'a', b'm', b'f', 0, 0]);
}

#[test]
fn demo_descriptors_collect() {
    let d = Descriptors::collect(&descriptors()).ok().unwrap();
    assert_eq!(d.sequence_header, Some(SequenceHeader { primary_profile: 0, additional_profile: 0 }));
    assert_eq!(d.codec_configs.len(), 1);
    assert_eq!(
        d.codec_configs[0].decoder_config,
        DecoderConfig::Lpcm { little_endian: true, sample_size: 16, sample_rate: 48000 }
    );
    assert_eq!(d.codec_configs[0].num_samples_per_frame, 960);
    assert_eq!(d.audio_elements.len(), 1);
    assert_eq!(d.audio_elements[0].substream_ids, (0..16).collect::<Vec<u32>>());
    assert_eq!(d.mix_presentations.len(), 1);
    assert_eq!(d.mix_presentations[0].sub_mixes[0].elements[0].headphones_rendering_mode, 1);
    assert!(d.element(1).is_some());
    assert!(d.element(2).is_none());
    assert_eq!(d.codec_config(1).unwrap().codec_id, CodecId::Lpcm);
}

#[test]
fn redundant_descriptors_first_copy_wins() {
    let mut blob = descriptors();
    blob.extend(descriptors());
    let d = Descriptors::collect(&blob).ok().unwrap();
    assert_eq!(d.codec_configs.len(), 1);
    assert_eq!(d.audio_elements.len(), 1);
    assert_eq!(d.mix_presentations.len(), 1);
}

#[test]
fn malformed_descriptors_rejected() {
    let blob = [25u8 << 3, 0x00];
    assert_eq!(
        Descriptors::collect(&blob).err(),
        Some(DecodeError::InvalidDescriptors("reserved OBU type 25 at byte 0".to_string()))
    );
}

#[test]
fn demo_stream_layout() {
    // Two planes of 1000 samples: two frames (the second padded).
    let planes = vec![vec![1i16; 1000], vec![-1i16; 1000]];
    let stream = generate(&planes);
    let split = descriptor_split(&stream).unwrap();
    assert_eq!(split, descriptors().len());
    // Each frame OBU: header byte, leb128(1920) (2 bytes), 1920 payload bytes.
    assert_eq!(stream.len(), split + 2 * 2 * (3 + FRAME * 2));
    let (first, n) = next_obu(&stream[split..]).unwrap().unwrap();
    assert_eq!(first.header.obu_type, ObuType::AudioFrameId(0));
    assert_eq!(&first.payload[..4], &[1, 0, 1, 0]);
    assert_eq!(n, 3 + FRAME * 2);
    let (second, _) = next_obu(&stream[split + n..]).unwrap().unwrap();
    assert_eq!(second.header.obu_type, ObuType::AudioFrameId(1));
    assert_eq!(&second.payload[..2], &[0xff, 0xff]);
}

#[test]
fn mix_info_of_demo() {
    let info = parse_mix_info(&descriptors());
    assert_eq!(info.ids, vec![1]);
    assert_eq!(info.codec, Some(CodecId::Lpcm));
    assert!(descriptor_split(&[25 << 3, 0]).is_none());
}

#[test]
fn next_obu_needs_whole_obus() {
    assert!(next_obu(&[31 << 3, 0x04, 0x69]).unwrap().is_none());
    assert!(matches!(next_obu(&[25 << 3, 0x00]), Err(DecodeError::CorruptPacket(_))));
}

// -- Decoding decisions ---------------------------------------------------

#[test]
fn declared_profiles_must_meet_request() {
    let header = SequenceHeader { primary_profile: 1, additional_profile: 2 };
    assert!(check_declared_profiles(&header, ProfileSet::all()).is_ok());
    assert_eq!(
        check_declared_profiles(&header, ProfileSet::simple()),
        Err(DecodeError::UnsupportedProfile("stream declares profiles 1/2 outside the requested set".to_string()))
    );
}

#[test]
fn demo_mix_is_supported() {
    let d = Descriptors::collect(&descriptors()).ok().unwrap();
    assert_eq!(supported_mixes(&d, ProfileSet::all()), vec![true]);
}

#[test]
fn sample_type_follows_bit_depth() {
    assert_eq!(auto_sample_type(None, &[lpcm(0, 16)]), OutputSampleType::Int16LittleEndian);
    assert_eq!(auto_sample_type(None, &[lpcm(0, 16), lpcm(1, 24)]), OutputSampleType::Int32LittleEndian);
    assert_eq!(
        auto_sample_type(Some(OutputSampleType::Int16LittleEndian), &[lpcm(0, 24)]),
        OutputSampleType::Int16LittleEndian
    );
}

#[test]
fn sample_rate_fallbacks() {
    assert_eq!(stream_sample_rate(&[0, 44100, 48000], None), 44100);
    assert_eq!(stream_sample_rate(&[0, 0], Some(&lpcm(0, 16))), 44100);
    assert_eq!(stream_sample_rate(&[], None), 0);
}

#[test]
fn substream_counts_must_match() {
    assert!(check_substream_count(&[2, 1], &[0, 1]).is_ok());
    assert_eq!(
        check_substream_count(&[2], &[0, 1]),
        Err(DecodeError::InvalidDescriptors("substream count mismatch".to_string()))
    );
    assert!(check_substream_count(&[], &[]).is_err());
}

#[test]
fn trim_maps_cut_planes() {
    let frames = [
        FramePcm { samples: vec![0u8; 8], trim_start: 1, trim_end: 0 },
        FramePcm { samples: vec![0u8; 8], trim_start: 0, trim_end: 9 },
    ];
    // Stereo: 4 samples per channel per frame.
    let map = trim_map_of(&frames, 2);
    assert_eq!(map, vec![(4, 1, 0), (4, 0, 4)]);
    let plane: Vec<u32> = (0..8).collect();
    let out = apply_trim_map(vec![plane], &map);
    assert_eq!(out, vec![vec![1, 2, 3]]);
}

// -- Reconstruction helpers ------------------------------------------------

#[test]
fn ambisonics_orders() {
    assert_eq!(hoa_order(1).unwrap(), HoaOrder::Zoa);
    assert_eq!(hoa_order(16).unwrap(), HoaOrder::Toa);
    assert_eq!(
        hoa_order(5),
        Err(DecodeError::InvalidDescriptors("5 channels is not a full ambisonics order".to_string()))
    );
    assert_eq!(hoa_order_index(0), 0);
    assert_eq!(hoa_order_index(1), 0);
    assert_eq!(hoa_order_index(16), 3);
    assert_eq!(hoa_order_index(25), 4);
    assert_eq!(hoa_order_index(24), 3);
    assert_eq!(hoa_order_index(usize::MAX), (1usize << (usize::BITS / 2)) - 2);
}

#[test]
fn deinterleave_splits_channels() {
    let planes = deinterleave(&[1, 2, 3, 4, 5], 2);
    assert_eq!(planes, vec![vec![1, 3, 5], vec![2, 4]]);
    assert!(deinterleave(&[1, 2, 3], 0).is_empty());
}

#[test]
fn layouts_and_sound_systems() {
    assert_eq!(Layout::Surround7_1_4.channel_count(), 12);
    assert_eq!(Layout::Mono.channel_count(), 1);
    assert_eq!(SoundSystem::from_u8(7), Some(SoundSystem::H));
    assert_eq!(SoundSystem::H.channels(), 24);
    assert_eq!(SoundSystem::from_u8(15), None);
    assert_eq!(BinauralInput::Hoa { order: 3 }, BinauralInput::Hoa { order: 3 });
    assert_ne!(FilterProfile::Ambient, FilterProfile::Direct);
}

// -- Codec adapters ---------------------------------------------------------

fn decode_pcm(format: SampleFormat, le: bool, packet: &[u8]) -> Vec<i32> {
    PcmDecoder::new(format, le, 1, 48000).decode_samples(packet).unwrap()
}

#[test]
fn pcm_sample_values() {
    assert_eq!(decode_pcm(SampleFormat::S16, true, &[0x00, 0x80, 0xff, 0x7f, 0x00, 0x00]), vec![i32::MIN, 0x7fff_0000, 0]);
    assert_eq!(decode_pcm(SampleFormat::S24, false, &[0x80, 0x00, 0x00]), vec![i32::MIN]);
    assert_eq!(decode_pcm(SampleFormat::S24, true, &[0x01, 0x00, 0x00]), vec![256]);
    assert_eq!(decode_pcm(SampleFormat::S32, true, &i32::MIN.to_le_bytes()), vec![i32::MIN]);
    assert_eq!(decode_pcm(SampleFormat::S32, false, &(-2i32).to_be_bytes()), vec![-2]);
    assert_eq!(SampleFormat::S24.bytes_per_sample(), 3);
}

#[test]
fn pcm_misaligned_packet_message() {
    let decoder = PcmDecoder::new(SampleFormat::S16, true, 2, 48000);
    assert_eq!(
        decoder.decode_samples(&[0u8; 5]),
        Err(DecodeError::CorruptPacket("packet length 5 not a multiple of frame size 4".to_string()))
    );
}

#[test]
fn pcm_factory_formats() {
    assert!(PcmFactory.supports(&lpcm(0, 24)));
    assert!(!PcmFactory.supports(&lpcm(0, 20)));
    let d = PcmFactory.create(&lpcm(0, 24), 2).unwrap();
    assert_eq!(d.output_channels(), 2);
    assert_eq!(d.output_sample_rate(), 44100);
    assert!(matches!(PcmFactory.create(&lpcm(0, 8), 1), Err(DecodeError::UnsupportedCodec)));
}

#[test]
fn opus_rules() {
    let opus = |version| CodecConfig {
        codec_config_id: 0,
        codec_id: CodecId::Opus,
        num_samples_per_frame: 960,
        audio_roll_distance: -4,
        decoder_config: DecoderConfig::Opus {
            version,
            output_channel_count: 2,
            pre_skip: 312,
            input_sample_rate: 48000,
            output_gain: 0,
            mapping_family: 0,
        },
    };
    assert!(opus_supports(&opus(1)));
    assert!(opus_supports(&opus(15)));
    assert!(!opus_supports(&opus(16)));
    assert!(OpusFactory.supports(&opus(1)));
    assert!(validate_channels(2).is_ok());
    assert_eq!(validate_channels(3), Err(DecodeError::UnsupportedCodec));
    assert_eq!(validate_channels(0), Err(DecodeError::UnsupportedCodec));
    assert!(DefaultFactory.supports(&opus(1)));
    assert!(DefaultFactory.supports(&lpcm(0, 16)));
    assert!(!DefaultFactory.supports(&lpcm(0, 12)));
}

#[test]
fn aac_sample_rates_and_parameters() {
    // AAC-LC (object type 2), index 3 (48 kHz), channel config 2.
    let asc = vec![0x11, 0x90];
    assert_eq!(asc_sample_rate(&asc), Some(48000));
    assert_eq!(asc_sample_rate(&[0x12, 0x10]), Some(44100));
    assert_eq!(asc_sample_rate(&[]), None);
    assert_eq!(asc_sample_rate(&[0x16, 0x80]), None); // index 13: reserved
    let config = CodecConfig {
        codec_config_id: 0,
        codec_id: CodecId::AacLc,
        num_samples_per_frame: 1024,
        audio_roll_distance: -1,
        decoder_config: DecoderConfig::AacLc { audio_specific_config: asc },
    };
    assert!(AacFactory.supports(&config));
    let (patched, rate) = AacFactory.codec_parameters(&config, 1).unwrap();
    assert_eq!(rate, 48000);
    assert_eq!(patched, vec![0x11, 0x88]);
}

#[test]
fn flac_streaminfo_channel_patch() {
    let mut streaminfo = vec![0u8; 34];
    streaminfo[12] = 0x0e | 0xf1;
    let config = CodecConfig {
        codec_config_id: 0,
        codec_id: CodecId::Flac,
        num_samples_per_frame: 16,
        audio_roll_distance: 0,
        decoder_config: DecoderConfig::Flac { sample_rate: 48000, bits_per_sample: 16, streaminfo },
    };
    assert!(FlacFactory.supports(&config));
    let (patched, rate) = FlacFactory.codec_parameters(&config, 2).unwrap();
    assert_eq!(rate, 48000);
    assert_eq!(patched[12], 0xf1 | 0x02);
    assert_eq!(FlacFactory.codec_parameters(&lpcm(0, 16), 2).err(), Some(DecodeError::UnsupportedCodec));
}

/// The decoder's integers at full scale, as the float renderer reads them.
fn decode_pcm_f32(format: SampleFormat, le: bool, packet: &[u8]) -> Vec<f32> {
    decode_pcm(format, le, packet).iter().map(|&v| v as f32 / -(i32::MIN as f32)).collect()
}

#[test]
fn s16_le_full_scale() {
    let samples = decode_pcm_f32(SampleFormat::S16, true, &[0x00, 0x80, 0xff, 0x7f, 0x00, 0x00]);
    assert_eq!(samples[0], -1.0);
    assert!((samples[1] - 1.0).abs() < 1e-4);
    assert_eq!(samples[2], 0.0);
}

#[test]
fn s24_be_negative() {
    let samples = decode_pcm_f32(SampleFormat::S24, false, &[0x80, 0x00, 0x00]);
    assert_eq!(samples[0], -1.0);
}

#[test]
fn s32_le_roundtrip() {
    let samples = decode_pcm_f32(SampleFormat::S32, true, &i32::MIN.to_le_bytes());
    assert_eq!(samples[0], -1.0);
}

#[test]
fn misaligned_packet_rejected() {
    let decoder = PcmDecoder::new(SampleFormat::S16, true, 2, 48000);
    assert!(decoder.decode_samples(&[0u8; 5]).is_err());
}
