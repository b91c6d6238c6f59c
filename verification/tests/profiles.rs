use iamf::descriptors::{
    AudioElement, AudioElementConfig, ChannelAudioLayer, CodecConfig, CodecId, DecoderConfig, Layout, LoudnessInfo,
    MixGainParam, MixPresentation, ParamDefinition, SubMix, SubMixElement,
};
use iamf::profile::{filter_profiles_for_mix, mix_codec_config, ProfileSet};

fn gain() -> MixGainParam {
    MixGainParam {
        base: ParamDefinition {
            parameter_id: 0,
            parameter_rate: 48000,
            mode: true,
            duration: 0,
            constant_subblock_duration: 0,
            subblock_durations: vec![],
        },
        default_mix_gain: 0,
    }
}

fn codec_config(id: u32) -> CodecConfig {
    CodecConfig {
        codec_config_id: id,
        codec_id: CodecId::Lpcm,
        num_samples_per_frame: 64,
        audio_roll_distance: 0,
        decoder_config: DecoderConfig::Lpcm { little_endian: true, sample_size: 16, sample_rate: 48000 },
    }
}

fn stereo_element(id: u32, codec: u32) -> AudioElement {
    AudioElement {
        audio_element_id: id,
        codec_config_id: codec,
        substream_ids: vec![id * 10],
        params: vec![],
        config: AudioElementConfig::ChannelBased {
            layers: vec![ChannelAudioLayer {
                loudspeaker_layout: 1,
                substream_count: 1,
                coupled_substream_count: 1,
                recon_gain_is_present: false,
                output_gain: None,
                expanded_loudspeaker_layout: None,
            }],
        },
    }
}

fn mix(element_ids: &[u32], headphones_mode: u8) -> MixPresentation {
    MixPresentation {
        mix_presentation_id: 1,
        annotation_languages: vec![],
        localized_annotations: vec![],
        sub_mixes: vec![SubMix {
            elements: element_ids
                .iter()
                .map(|&id| SubMixElement {
                    audio_element_id: id,
                    localized_annotations: vec![],
                    headphones_rendering_mode: headphones_mode,
                    element_mix_gain: gain(),
                })
                .collect(),
            output_mix_gain: gain(),
            layouts: vec![(
                Layout::LoudspeakersSsConvention { sound_system: 0 },
                LoudnessInfo {
                    info_type: 0,
                    integrated_loudness: 0,
                    digital_peak: 0,
                    true_peak: None,
                    anchored_loudness: vec![],
                },
            )],
        }],
        tags: vec![],
    }
}

#[test]
fn stereo_mix_supported_by_all_profiles() {
    let elements = [stereo_element(1, 0)];
    let configs = [codec_config(0)];
    let set = filter_profiles_for_mix(&mix(&[1], 0), &elements, &configs, ProfileSet::all());
    assert_eq!(set, ProfileSet::all());
}

#[test]
fn two_elements_exceed_simple() {
    let elements = [stereo_element(1, 0), stereo_element(2, 0)];
    let configs = [codec_config(0)];
    let set = filter_profiles_for_mix(&mix(&[1, 2], 0), &elements, &configs, ProfileSet::all());
    assert_eq!(set, ProfileSet::base().union(ProfileSet::base_enhanced()));
    // Requesting only simple leaves nothing.
    let set = filter_profiles_for_mix(&mix(&[1, 2], 0), &elements, &configs, ProfileSet::simple());
    assert!(set.is_empty());
}

#[test]
fn expanded_layout_needs_base_enhanced() {
    let mut element = stereo_element(1, 0);
    element.config = AudioElementConfig::ChannelBased {
        layers: vec![ChannelAudioLayer {
            loudspeaker_layout: 15,
            substream_count: 1,
            coupled_substream_count: 0,
            recon_gain_is_present: false,
            output_gain: None,
            expanded_loudspeaker_layout: Some(0), // LFE subset
        }],
    };
    let configs = [codec_config(0)];
    let set = filter_profiles_for_mix(&mix(&[1], 0), &[element.clone()], &configs, ProfileSet::all());
    assert_eq!(set, ProfileSet::base_enhanced());

    // v2-draft expanded layouts are outside every v1.1 profile.
    element.config = AudioElementConfig::ChannelBased {
        layers: vec![ChannelAudioLayer {
            loudspeaker_layout: 15,
            substream_count: 1,
            coupled_substream_count: 0,
            recon_gain_is_present: false,
            output_gain: None,
            expanded_loudspeaker_layout: Some(13), // 10.2.9.3
        }],
    };
    let set = filter_profiles_for_mix(&mix(&[1], 0), &[element], &configs, ProfileSet::all());
    assert!(set.is_empty());
}

#[test]
fn headlocked_binaural_unsupported() {
    let elements = [stereo_element(1, 0)];
    let configs = [codec_config(0)];
    let set = filter_profiles_for_mix(&mix(&[1], 2), &elements, &configs, ProfileSet::all());
    assert!(set.is_empty());
}

#[test]
fn two_codec_configs_in_first_sub_mix_unsupported() {
    let elements = [stereo_element(1, 0), stereo_element(2, 1)];
    let configs = [codec_config(0), codec_config(1)];
    let set = filter_profiles_for_mix(&mix(&[1, 2], 0), &elements, &configs, ProfileSet::all());
    assert!(set.is_empty());
}

#[test]
fn missing_element_reference_unsupported() {
    let configs = [codec_config(0)];
    let set = filter_profiles_for_mix(&mix(&[9], 0), &[], &configs, ProfileSet::all());
    assert!(set.is_empty());
}

#[test]
fn profile_bits_roundtrip() {
    assert_eq!(ProfileSet::from_bits(0), ProfileSet::all());
    assert_eq!(ProfileSet::from_bits(0b001), ProfileSet::simple());
    assert_eq!(ProfileSet::from_bits(0b110), ProfileSet::base().union(ProfileSet::base_enhanced()));
}

#[test]
fn profile_numbers_and_intersections() {
    assert_eq!(ProfileSet::from_profile_number(0), ProfileSet::simple());
    assert_eq!(ProfileSet::from_profile_number(1), ProfileSet::base());
    assert_eq!(ProfileSet::from_profile_number(2), ProfileSet::base_enhanced());
    assert!(ProfileSet::from_profile_number(3).is_empty());
    assert!(ProfileSet::simple().intersects(ProfileSet::all()));
    assert!(!ProfileSet::simple().intersects(ProfileSet::base()));
    assert_eq!(ProfileSet::default(), ProfileSet::all());
    assert!(ProfileSet::empty().is_empty());
}

#[test]
fn budgets_of_many_elements() {
    // Three stereo elements exceed base (more than two elements) and
    // simple; base-enhanced remains.
    let elements = [stereo_element(1, 0), stereo_element(2, 0), stereo_element(3, 0)];
    let configs = [codec_config(0)];
    let set = filter_profiles_for_mix(&mix(&[1, 2, 3], 0), &elements, &configs, ProfileSet::all());
    assert_eq!(set, ProfileSet::base_enhanced());
}

#[test]
fn mix_codec_config_of_first_element() {
    let elements = [stereo_element(1, 3)];
    let configs = [codec_config(0), codec_config(3)];
    let m = mix(&[1], 0);
    let c = mix_codec_config(&m.sub_mixes[0], &elements, &configs).unwrap();
    assert_eq!(c.codec_config_id, 3);
    assert!(mix_codec_config(&mix(&[2], 0).sub_mixes[0], &elements, &configs).is_none());
}
