use iamf::frame_queue::{is_temporal_unit_available, FrameQueues};
use iamf::decode_error::DecodeError;
use iamf::demo::descriptors;
use iamf::descriptors::{AudioElementConfig, Layout, LoudnessInfo, MixGainParam, ParamDefinition, SubMix};
use iamf::layout::SoundSystem;
use iamf::presentation::{kept_samples, Descriptors};
use iamf::stream::{
    element_substreams, loudness_layout, register_output_gain, register_slot_params, resolve_sub_element,
    targets_for, ParamKind, ParamTarget,
};

fn demo() -> Descriptors {
    Descriptors::collect(&descriptors()).ok().unwrap()
}

fn loudness() -> LoudnessInfo {
    LoudnessInfo { info_type: 0, integrated_loudness: -6144, digital_peak: 0, true_peak: None, anchored_loudness: vec![] }
}

#[test]
fn sub_elements_resolve_to_positions() {
    let d = demo();
    assert_eq!(resolve_sub_element(&d, 1), Ok((0, 0)));
    assert_eq!(
        resolve_sub_element(&d, 5),
        Err(DecodeError::InvalidDescriptors("mix references unknown element 5".to_string()))
    );
    let mut broken = demo();
    broken.codec_configs.clear();
    assert_eq!(
        resolve_sub_element(&broken, 1),
        Err(DecodeError::InvalidDescriptors("element references unknown codec config 1".to_string()))
    );
}

#[test]
fn parameter_consumers_in_registration_order() {
    let d = demo();
    let mut index: Vec<ParamTarget> = Vec::new();
    let sub = &d.mix_presentations[0].sub_mixes[0];
    register_slot_params(&mut index, 0, &d.audio_elements[0], &sub.elements[0]);
    register_output_gain(&mut index, sub);
    assert_eq!(index.len(), 2);
    assert_eq!(index[0].parameter_id, 100);
    assert_eq!(index[0].kind, ParamKind::ElementMixGain);
    assert_eq!(index[1].parameter_id, 101);
    assert_eq!(index[1].kind, ParamKind::OutputMixGain);
    assert_eq!(targets_for(&index, 101), vec![1]);
    assert!(targets_for(&index, 7).is_empty());
}

#[test]
fn loudness_layout_prefers_target() {
    let gain = MixGainParam {
        base: ParamDefinition {
            parameter_id: 0,
            parameter_rate: 48000,
            mode: true,
            duration: 0,
            constant_subblock_duration: 0,
            subblock_durations: vec![],
        },
        default_mix_gain: 0,
    };
    let sub = SubMix {
        elements: vec![],
        output_mix_gain: gain,
        layouts: vec![
            (Layout::LoudspeakersSsConvention { sound_system: 0 }, loudness()),
            (Layout::Binaural, loudness()),
        ],
    };
    assert_eq!(loudness_layout(&sub, SoundSystem::Binaural), Some(1));
    assert_eq!(loudness_layout(&sub, SoundSystem::A), Some(0));
    assert_eq!(loudness_layout(&sub, SoundSystem::J), Some(0));
}

#[test]
fn element_substream_counts() {
    let d = demo();
    assert_eq!(element_substreams(&d.audio_elements[0]).unwrap(), vec![1u8; 16]);
    let mut e = d.audio_elements[0].clone();
    e.config = AudioElementConfig::AmbisonicsMono {
        output_channel_count: 4,
        substream_count: 4,
        channel_mapping: vec![0, 1, 2, 3],
    };
    assert_eq!(
        element_substreams(&e),
        Err(DecodeError::InvalidDescriptors(
            "element 1 declares 16 substream ids but its config implies 4".to_string()
        ))
    );
}

#[test]
fn trimmed_frame_samples() {
    // Stereo frame of 4 sample frames; trim one at the start and one at
    // the end.
    let samples: Vec<u16> = (0..8).collect();
    assert_eq!(kept_samples(&samples, 2, 1, 1), vec![2, 3, 4, 5]);
    assert_eq!(kept_samples(&samples, 2, 9, 1), Vec::<u16>::new());
    assert_eq!(kept_samples(&samples, 0, 0, 7), vec![0]);
}

use iamf::capi::{
    copy_status, resolve_settings, status_of, IamfrsSettings, IAMFRS_ERR_BUFFER_TOO_SMALL, IAMFRS_ERR_CORRUPT_DATA,
    IAMFRS_ERR_INVALID_ARG, IAMFRS_ERR_UNSUPPORTED, IAMFRS_OK,
};
use iamf::stream::{ChannelOrdering, MixSelection, OutputSampleType};

fn c_settings() -> IamfrsSettings {
    IamfrsSettings {
        output_layout: 14,
        sample_type: 2,
        mix_presentation_id: 42,
        channel_ordering: 1,
        disable_trim_start: 1,
        disable_trim_end: 0,
    }
}

#[test]
fn c_settings_validation() {
    let s = resolve_settings(&c_settings()).ok().unwrap();
    assert_eq!(s.layout, SoundSystem::Binaural);
    assert_eq!(s.sample_type, Some(OutputSampleType::Int32LittleEndian));
    assert_eq!(s.mix_selection, MixSelection::ById(42));
    assert_eq!(s.channel_ordering, ChannelOrdering::Android);
    assert!(!s.trimming.trim_beginning);
    assert!(s.trimming.trim_end);

    let mut auto = c_settings();
    auto.mix_presentation_id = -1;
    assert_eq!(resolve_settings(&auto).ok().unwrap().mix_selection, MixSelection::Auto);
    for bad in [
        IamfrsSettings { output_layout: 15, ..c_settings() },
        IamfrsSettings { output_layout: -1, ..c_settings() },
        IamfrsSettings { sample_type: 3, ..c_settings() },
        IamfrsSettings { channel_ordering: 2, ..c_settings() },
        IamfrsSettings { mix_presentation_id: 1 << 40, ..c_settings() },
    ] {
        assert_eq!(resolve_settings(&bad).err(), Some(IAMFRS_ERR_INVALID_ARG));
    }
}

#[test]
fn c_status_codes() {
    assert_eq!(status_of(&DecodeError::UnsupportedCodec), IAMFRS_ERR_UNSUPPORTED);
    assert_eq!(status_of(&DecodeError::CorruptPacket("x".to_string())), IAMFRS_ERR_CORRUPT_DATA);
    assert_eq!(status_of(&DecodeError::InvalidDescriptors("x".to_string())), IAMFRS_ERR_CORRUPT_DATA);
    assert_eq!(copy_status(10, 4, false), IAMFRS_ERR_BUFFER_TOO_SMALL);
    assert_eq!(copy_status(4, 4, true), IAMFRS_ERR_INVALID_ARG);
    assert_eq!(copy_status(0, 0, true), IAMFRS_OK);
    assert_eq!(copy_status(4, 8, false), IAMFRS_OK);
}

#[test]
fn presentation_sub_mix_lookup() {
    let d = demo();
    assert_eq!(d.presentation_sub_mix(0).unwrap().elements.len(), 1);
    assert_eq!(
        d.presentation_sub_mix(1).err(),
        Some(DecodeError::InvalidDescriptors("no such mix presentation".to_string()))
    );
    let mut two = demo();
    let extra = two.mix_presentations[0].sub_mixes[0].clone();
    two.mix_presentations[0].sub_mixes.push(extra);
    assert_eq!(two.presentation_sub_mix(0).err(), Some(DecodeError::InvalidDescriptors("IAMF v1.1 requires exactly one sub mix per mix presentation".to_string())));
}

fn frame(v: i32) -> iamf::element::FramePcm<i32> {
    iamf::element::FramePcm { samples: vec![v, v], trim_start: 0, trim_end: 0 }
}

#[test]
fn frame_queues_release_units_in_arrival_order() {
    let mut q = FrameQueues::<i32>::new(2);
    assert_eq!(q.substreams(), 2);
    assert!(!q.unit_ready());
    q.push(0, frame(1));
    q.push(0, frame(2));
    assert!(!q.unit_ready());
    assert_eq!(q.depths(), vec![2, 0]);
    q.push(1, frame(10));
    assert!(q.unit_ready());
    let unit = q.pop_unit();
    assert_eq!(unit.len(), 2);
    assert_eq!(unit[0].samples, vec![1, 1]);
    assert_eq!(unit[1].samples, vec![10, 10]);
    assert_eq!(q.depths(), vec![1, 0]);
    assert!(!q.unit_ready());
    q.clear();
    assert_eq!(q.depths(), vec![0, 0]);
}

#[test]
fn frame_queues_without_substreams_are_always_ready() {
    let mut q = FrameQueues::<i32>::new(0);
    assert!(q.unit_ready());
    assert!(q.pop_unit().is_empty());
}

#[test]
fn temporal_unit_needs_every_element_ready() {
    assert!(!is_temporal_unit_available::<i32>(&vec![]));
    let mut a = FrameQueues::<i32>::new(1);
    let mut b = FrameQueues::<i32>::new(2);
    a.push(0, frame(1));
    b.push(0, frame(2));
    let slots = vec![a, b];
    assert!(!is_temporal_unit_available(&slots));
    let mut slots = slots;
    slots[1].push(1, frame(3));
    assert!(is_temporal_unit_available(&slots));
}

#[test]
fn reusable_decoders_are_taken_by_element_and_count() {
    let mut pool: Vec<(u32, usize)> = vec![(1, 2), (7, 1), (7, 3), (9, 1)];
    assert_eq!(iamf::stream::take_reusable(&mut pool, 7, 3), Some(2));
    assert_eq!(pool, vec![(1, 2), (7, 1), (9, 1)]);
    assert_eq!(iamf::stream::take_reusable(&mut pool, 7, 2), None);
    assert_eq!(pool, vec![(1, 2), (7, 1), (9, 1)]);
    assert_eq!(iamf::stream::take_reusable(&mut pool, 1, 2), Some(0));
    assert_eq!(pool, vec![(9, 1), (7, 1)]);
}
