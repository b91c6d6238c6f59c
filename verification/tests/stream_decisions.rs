use iamf::decode_error::DecodeError;
use iamf::descriptors::{Layout, LoudnessInfo, MixGainParam, MixPresentation, ParamDefinition, SubMix};
use iamf::layout::SoundSystem;
use iamf::stream::{
    check_temporal_unit, check_unit_alignment, output_permutation, route_substream, select_mix_index,
    trim_window, ChannelOrdering, GainCursor, MixSelection, OutputSampleType, TrimmingSettings, UnitFrames,
};
use iamf::params::MixGainAnimation;

fn mix(id: u32, sound_system: u8) -> MixPresentation {
    let gain = MixGainParam {
        base: ParamDefinition {
            parameter_id: 0,
            parameter_rate: 48000,
            mode: true,
            duration: 0,
            constant_subblock_duration: 0,
            subblock_durations: vec![],
        },
        default_mix_gain: 0,
    };
    MixPresentation {
        mix_presentation_id: id,
        annotation_languages: vec![],
        localized_annotations: vec![],
        sub_mixes: vec![SubMix {
            elements: vec![],
            output_mix_gain: gain,
            layouts: vec![(
                Layout::LoudspeakersSsConvention { sound_system },
                LoudnessInfo {
                    info_type: 0,
                    integrated_loudness: 0,
                    digital_peak: 0,
                    true_peak: None,
                    anchored_loudness: vec![],
                },
            )],
        }],
        tags: vec![],
    }
}

#[test]
fn mix_selection_modes() {
    let mixes = [mix(10, 0), mix(20, 9)];
    let all = [true, true];
    // Auto prefers the mix declaring the requested layout.
    assert_eq!(select_mix_index(&mixes, &all, MixSelection::Auto, SoundSystem::J).unwrap(), 1);
    // Auto falls back to the first when nothing matches.
    assert_eq!(select_mix_index(&mixes, &all, MixSelection::Auto, SoundSystem::H).unwrap(), 0);
    // Binaural playback matches stereo-authored mixes.
    assert_eq!(select_mix_index(&mixes, &all, MixSelection::Auto, SoundSystem::Binaural).unwrap(), 0);
    assert_eq!(select_mix_index(&mixes, &all, MixSelection::ById(20), SoundSystem::A).unwrap(), 1);
    // Unknown id falls back to automatic selection.
    assert_eq!(select_mix_index(&mixes, &all, MixSelection::ById(99), SoundSystem::A).unwrap(), 0);
    assert_eq!(select_mix_index(&mixes, &all, MixSelection::ByIndex(1), SoundSystem::A).unwrap(), 1);
    assert!(select_mix_index(&mixes, &all, MixSelection::ByIndex(2), SoundSystem::A).is_err());
}

#[test]
fn output_permutations_are_bijections() {
    for system in 0..=14u8 {
        let target = SoundSystem::from_u8(system).unwrap();
        for ordering in [ChannelOrdering::Iamf, ChannelOrdering::Android] {
            let p = output_permutation(target, ordering);
            assert_eq!(p.len(), target.channels(), "{target:?} {ordering:?}");
            let mut seen = vec![false; p.len()];
            for &slot in &p {
                assert!(slot < p.len(), "{target:?} {ordering:?}: index {slot}");
                assert!(!seen[slot], "{target:?} {ordering:?}: duplicate {slot}");
                seen[slot] = true;
            }
        }
    }
}

#[test]
fn unsupported_mixes_are_skipped() {
    let mixes = [mix(10, 9), mix(20, 9)];
    let supported = [false, true];
    // Auto skips the unsupported mix even though it matches first.
    assert_eq!(select_mix_index(&mixes, &supported, MixSelection::Auto, SoundSystem::J).unwrap(), 1);
    // An id resolving to an unsupported mix falls back to auto.
    assert_eq!(select_mix_index(&mixes, &supported, MixSelection::ById(10), SoundSystem::A).unwrap(), 1);
    // Explicit index to an unsupported mix is an error.
    assert!(matches!(
        select_mix_index(&mixes, &supported, MixSelection::ByIndex(0), SoundSystem::A),
        Err(DecodeError::UnsupportedProfile(_))
    ));
    // Nothing supported at all.
    assert!(matches!(
        select_mix_index(&mixes, &[false, false], MixSelection::Auto, SoundSystem::A),
        Err(DecodeError::UnsupportedProfile(_))
    ));
}

#[test]
fn selection_error_messages() {
    let mixes = [mix(10, 0)];
    assert_eq!(
        select_mix_index(&mixes, &[false], MixSelection::ByIndex(0), SoundSystem::A),
        Err(DecodeError::UnsupportedProfile("mix presentation 0 exceeds the requested profiles".to_string()))
    );
    assert_eq!(
        select_mix_index(&mixes, &[true], MixSelection::ByIndex(7), SoundSystem::A),
        Err(DecodeError::InvalidDescriptors("no such mix presentation".to_string()))
    );
}

#[test]
fn android_orders_for_7_1_4_and_h() {
    assert_eq!(output_permutation(SoundSystem::J, ChannelOrdering::Android), vec![0, 1, 2, 3, 6, 7, 4, 5, 8, 9, 10, 11]);
    assert_eq!(output_permutation(SoundSystem::J, ChannelOrdering::Iamf), (0..12).collect::<Vec<usize>>());
    assert_eq!(output_permutation(SoundSystem::F, ChannelOrdering::Android), vec![1, 2, 0, 10, 7, 8, 5, 6, 9, 3, 4, 11]);
    assert_eq!(output_permutation(SoundSystem::B, ChannelOrdering::Android), (0..6).collect::<Vec<usize>>());
}

#[test]
fn sample_type_widths() {
    assert_eq!(OutputSampleType::Int16LittleEndian.bytes_per_sample(), 2);
    assert_eq!(OutputSampleType::Int32LittleEndian.bytes_per_sample(), 4);
}

#[test]
fn trimming_window_clamps() {
    let both = TrimmingSettings::default();
    assert_eq!(trim_window(960, 100, 50, both), (100, 50));
    // Trims larger than the unit are clamped; the end trim gets what is left.
    assert_eq!(trim_window(960, 2000, 50, both), (960, 0));
    assert_eq!(trim_window(960, 900, 100, both), (900, 60));
    let mut start_only = TrimmingSettings::default();
    start_only.trim_end = false;
    assert_eq!(trim_window(960, 100, 50, start_only), (100, 0));
}

#[test]
fn unit_alignment_and_routing() {
    assert!(check_unit_alignment(&[2, 2, 2]).is_ok());
    assert_eq!(
        check_unit_alignment(&[2, 1]),
        Err(DecodeError::CorruptPacket(
            "temporal delimiter mid-unit: substreams have unequal frame counts".to_string()
        ))
    );
    let slots = vec![vec![0u32, 1], vec![5u32, 6, 7]];
    assert_eq!(route_substream(&slots, 6), Some((1, 1)));
    assert_eq!(route_substream(&slots, 0), Some((0, 0)));
    assert_eq!(route_substream(&slots, 9), None);
}

#[test]
fn temporal_unit_consistency() {
    let ok = [
        UnitFrames { frame_len: 960, trims: vec![(10, 0), (10, 0)] },
        UnitFrames { frame_len: 960, trims: vec![(10, 0)] },
    ];
    assert_eq!(check_temporal_unit(&ok).unwrap(), (960, (10, 0)));
    let bad_trim = [UnitFrames { frame_len: 960, trims: vec![(10, 0), (0, 0)] }];
    assert!(matches!(check_temporal_unit(&bad_trim), Err(DecodeError::CorruptPacket(_))));
    let bad_len = [
        UnitFrames { frame_len: 960, trims: vec![(0, 0)] },
        UnitFrames { frame_len: 480, trims: vec![(0, 0)] },
    ];
    assert_eq!(
        check_temporal_unit(&bad_len),
        Err(DecodeError::CorruptPacket("temporal unit frame lengths differ across elements".to_string()))
    );
}

#[test]
fn gain_cursor_walks_subblocks() {
    let mut cursor = GainCursor::default();
    cursor.push(MixGainAnimation::Step { start: -256 }, 2);
    cursor.push(MixGainAnimation::Step { start: 0 }, 0); // empty, dropped
    cursor.push(MixGainAnimation::Linear { start: 0, end: 256 }, 1);
    assert_eq!(cursor.advance(), Some((MixGainAnimation::Step { start: -256 }, 2, 0)));
    assert_eq!(cursor.advance(), Some((MixGainAnimation::Step { start: -256 }, 2, 1)));
    assert_eq!(cursor.advance(), Some((MixGainAnimation::Linear { start: 0, end: 256 }, 1, 0)));
    assert_eq!(cursor.advance(), None);
}
