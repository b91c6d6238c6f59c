use iamf::descriptors::{
    AudioElement, AudioElementConfig, CodecConfig, CodecId, DecoderConfig, ElementParam, Layout, MixPresentation,
    SequenceHeader,
};
use iamf::error::Error;
use iamf::reader::ByteReader;

#[test]
fn sequence_header() {
    let mut r = ByteReader::new(b"iamf\x00\x01");
    let sh = SequenceHeader::parse(&mut r).unwrap();
    assert_eq!(sh.primary_profile, 0);
    assert_eq!(sh.additional_profile, 1);

    let mut r = ByteReader::new(b"OggS\x00\x01");
    assert!(SequenceHeader::parse(&mut r).is_err());
}

#[test]
fn codec_config_opus() {
    let mut payload = vec![0x00]; // codec_config_id = 0
    payload.extend(b"Opus");
    payload.extend([0xc0, 0x07]); // num_samples_per_frame = 960
    payload.extend((-4i16).to_be_bytes()); // audio_roll_distance
    payload.extend([1, 2]); // version, output_channel_count
    payload.extend(312u16.to_be_bytes()); // pre_skip
    payload.extend(48000u32.to_be_bytes()); // input_sample_rate
    payload.extend(0i16.to_be_bytes()); // output_gain
    payload.push(0); // mapping_family

    let cc = CodecConfig::parse(&mut ByteReader::new(&payload)).unwrap();
    assert_eq!(cc.codec_id, CodecId::Opus);
    assert_eq!(cc.num_samples_per_frame, 960);
    assert_eq!(cc.audio_roll_distance, -4);
    assert_eq!(
        cc.decoder_config,
        DecoderConfig::Opus {
            version: 1,
            output_channel_count: 2,
            pre_skip: 312,
            input_sample_rate: 48000,
            output_gain: 0,
            mapping_family: 0,
        }
    );
}

#[test]
fn codec_config_lpcm() {
    let mut payload = vec![0x01]; // codec_config_id
    payload.extend(b"ipcm");
    payload.push(0x40); // num_samples_per_frame = 64
    payload.extend(0i16.to_be_bytes());
    payload.push(0x01); // sample_format_flags: little endian
    payload.push(16); // sample_size
    payload.extend(44100u32.to_be_bytes());

    let cc = CodecConfig::parse(&mut ByteReader::new(&payload)).unwrap();
    assert_eq!(cc.decoder_config, DecoderConfig::Lpcm { little_endian: true, sample_size: 16, sample_rate: 44100 });
}

#[test]
fn codec_config_flac_streaminfo() {
    let mut payload = vec![0x02];
    payload.extend(b"fLaC");
    payload.push(0x10); // num_samples_per_frame = 16
    payload.extend(0i16.to_be_bytes());
    // Metadata block header: last=1, type=0 (STREAMINFO), length=34.
    payload.extend(0x8000_0022u32.to_be_bytes());
    payload.extend([0u8; 10]); // block/frame sizes
    // sample_rate=48000 (20 bits), channels-1=1 (3 bits), bps-1=15 (5).
    let packed: u32 = (48000 << 12) | (1 << 9) | (15 << 4);
    payload.extend(packed.to_be_bytes());
    payload.extend([0u8; 20]); // rest of STREAMINFO, unread

    let cc = CodecConfig::parse(&mut ByteReader::new(&payload)).unwrap();
    let DecoderConfig::Flac { sample_rate, bits_per_sample, streaminfo } = &cc.decoder_config else {
        panic!("expected flac");
    };
    assert_eq!(*sample_rate, 48000);
    assert_eq!(*bits_per_sample, 16);
    assert_eq!(streaminfo.len(), 34);
}

/// Stereo channel-based element: 1 layer, no params.
#[test]
fn audio_element_channel_based() {
    let mut payload = vec![0x0a]; // audio_element_id = 10
    payload.push(0x00); // type=0 (channel based)
    payload.push(0x00); // codec_config_id
    payload.push(0x01); // num_substreams
    payload.push(0x11); // substream id 17
    payload.push(0x00); // num_parameters
    payload.push(1 << 5); // num_layers = 1
    payload.push(0x01 << 4); // loudspeaker_layout=1 (stereo), no flags
    payload.push(1); // substream_count
    payload.push(1); // coupled_substream_count

    let ae = AudioElement::parse(&mut ByteReader::new(&payload)).unwrap();
    assert_eq!(ae.audio_element_id, 10);
    assert_eq!(ae.substream_ids, vec![17]);
    let AudioElementConfig::ChannelBased { layers } = &ae.config else {
        panic!("expected channel based");
    };
    assert_eq!(layers.len(), 1);
    assert_eq!(layers[0].loudspeaker_layout, 1);
    assert_eq!(layers[0].coupled_substream_count, 1);
}

/// Element with a demixing parameter (mode 0, constant subblocks).
#[test]
fn audio_element_with_demixing_param() {
    let mut payload = vec![0x0b, 0x00, 0x00];
    payload.push(0x02); // num_substreams = 2
    payload.extend([0x00, 0x01]);
    payload.push(0x01); // num_parameters = 1
    payload.push(0x01); // param_definition_type = demixing
    payload.push(0x07); // parameter_id
    payload.extend([0x80, 0xf7, 0x02]); // parameter_rate = 48000
    payload.push(0x00); // mode = 0
    payload.extend([0xc0, 0x07]); // duration = 960
    payload.extend([0xc0, 0x07]); // constant_subblock_duration = 960
    payload.push(0x02 << 5); // dmixp_mode = 2
    payload.push(0x03 << 4); // default_w = 3
    payload.push(1 << 5); // num_layers = 1
    payload.push(0x02 << 4); // layout 2 (5.1)
    payload.push(4);
    payload.push(2);

    let ae = AudioElement::parse(&mut ByteReader::new(&payload)).unwrap();
    assert_eq!(ae.params.len(), 1);
    let ElementParam::Demixing { base, default_demixing_mode, default_weight_index } = &ae.params[0] else {
        panic!("expected demixing param");
    };
    assert_eq!(base.parameter_rate, 48000);
    assert_eq!(base.duration, 960);
    assert_eq!(*default_demixing_mode, 2);
    assert_eq!(*default_weight_index, 3);
}

#[test]
fn audio_element_ambisonics_mono() {
    let mut payload = vec![0x0c];
    payload.push(0x01 << 5); // type=1 (scene based)
    payload.push(0x00); // codec_config_id
    payload.push(0x04); // num_substreams
    payload.extend([0x00, 0x01, 0x02, 0x03]);
    payload.push(0x00); // num_parameters
    payload.push(0x00); // ambisonics_mode = mono
    payload.push(4); // output_channel_count (FOA)
    payload.push(4); // substream_count
    payload.extend([0, 1, 2, 3]); // channel_mapping

    let ae = AudioElement::parse(&mut ByteReader::new(&payload)).unwrap();
    assert_eq!(
        ae.config,
        AudioElementConfig::AmbisonicsMono { output_channel_count: 4, substream_count: 4, channel_mapping: vec![0, 1, 2, 3] }
    );
}

/// Minimal mix presentation: one label, one sub mix, one element, one
/// stereo layout with basic loudness.
#[test]
fn mix_presentation_minimal() {
    let mut payload = vec![0x2a]; // mix_presentation_id = 42
    payload.push(0x01); // count_label
    payload.extend(b"en-us\0");
    payload.extend(b"Default\0");
    payload.push(0x01); // num_sub_mixes
    payload.push(0x01); // num_audio_elements
    payload.push(0x0a); // audio_element_id = 10
    payload.extend(b"Main\0"); // localized element annotation
    payload.push(0x00); // headphones_rendering_mode=0, reserved
    payload.push(0x00); // rendering_config_extension_size = 0
    // element_mix_gain: id, rate, mode=1 (no timing), default gain.
    payload.push(0x00);
    payload.extend([0x80, 0xf7, 0x02]);
    payload.push(0x80);
    payload.extend(0i16.to_be_bytes());
    // output_mix_gain, same shape.
    payload.push(0x01);
    payload.extend([0x80, 0xf7, 0x02]);
    payload.push(0x80);
    payload.extend((-256i16).to_be_bytes()); // -1 dB in Q7.8
    payload.push(0x01); // num_layouts
    payload.push(0x80); // type=2 (ss convention), sound system A (0)
    payload.push(0x00); // info_type = 0
    payload.extend((-4096i16).to_be_bytes()); // integrated loudness -16 LKFS
    payload.extend((-256i16).to_be_bytes()); // digital peak

    let mp = MixPresentation::parse(&mut ByteReader::new(&payload)).unwrap();
    assert_eq!(mp.mix_presentation_id, 42);
    assert_eq!(mp.annotation_languages, vec!["en-us"]);
    assert_eq!(mp.localized_annotations, vec!["Default"]);
    assert_eq!(mp.sub_mixes.len(), 1);
    let sub = &mp.sub_mixes[0];
    assert_eq!(sub.elements[0].audio_element_id, 10);
    assert_eq!(sub.elements[0].localized_annotations, vec!["Main"]);
    assert_eq!(sub.output_mix_gain.default_mix_gain, -256);
    assert_eq!(sub.layouts[0].0, Layout::LoudspeakersSsConvention { sound_system: 0 });
    assert_eq!(sub.layouts[0].1.integrated_loudness, -4096);
    assert!(mp.tags.is_empty());
}

#[test]
fn hostile_count_rejected() {
    // num_substreams = 0xFFFFFFF far exceeds remaining bytes.
    let payload = [0x0a, 0x00, 0x00, 0xff, 0xff, 0xff, 0x7f];
    assert!(matches!(AudioElement::parse(&mut ByteReader::new(&payload)), Err(Error::UnexpectedEof { .. })));
}
