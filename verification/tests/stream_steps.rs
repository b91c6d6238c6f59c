use iamf::decode_error::DecodeError;
use iamf::demo::{descriptors, obu};
use iamf::filters::{parse_wav_checked, wav_has_short_format_chunk};
use iamf::presentation::Descriptors;
use iamf::stream::{
    check_temporal_unit, plan_setup, register_output_gain, register_slot_params, stream_step, ParamTarget, StreamAction,
    UnitFrames,
};

fn targets() -> Vec<ParamTarget> {
    let d = Descriptors::collect(&descriptors()).ok().unwrap();
    let sub = &d.mix_presentations[0].sub_mixes[0];
    let mut index: Vec<ParamTarget> = Vec::new();
    register_slot_params(&mut index, 0, &d.audio_elements[0], &sub.elements[0]);
    register_output_gain(&mut index, sub);
    index
}

#[test]
fn stream_step_routes_frames() {
    let mut data = Vec::new();
    obu(&mut data, 6 + 2, &[9, 8, 7]); // audio frame of substream 2
    let ids = vec![vec![1u32], vec![5, 2]];
    match stream_step(&data, &ids, &targets(), &[0, 0, 0]) {
        Ok(Some((StreamAction::DecodeFrame { slot, index, data: frame, trim_start, trim_end }, n))) => {
            assert_eq!((slot, index, frame, trim_start, trim_end, n), (1, 1, vec![9, 8, 7], 0, 0, data.len()));
        }
        _ => panic!("expected a frame to decode"),
    }
    assert!(matches!(stream_step(&data, &[vec![1u32]], &targets(), &[]), Ok(Some((StreamAction::Skip, _)))));
    assert!(matches!(stream_step(&data[..2], &ids, &targets(), &[]), Ok(None)));
}

#[test]
fn stream_step_parameters_and_delimiters() {
    let mut block = Vec::new();
    obu(&mut block, 3, &[101, 0]);
    match stream_step(&block, &[], &targets(), &[]) {
        Ok(Some((StreamAction::ApplyParameters { targets, payload }, _))) => {
            assert_eq!(targets, vec![1]);
            assert_eq!(payload, vec![101, 0]);
        }
        _ => panic!("expected parameters to apply"),
    }
    let mut unknown = Vec::new();
    obu(&mut unknown, 3, &[7]);
    assert!(matches!(stream_step(&unknown, &[], &targets(), &[]), Ok(Some((StreamAction::Skip, _)))));
    let mut delimiter = Vec::new();
    obu(&mut delimiter, 4, &[]);
    assert!(matches!(stream_step(&delimiter, &[], &[], &[2, 2]), Ok(Some((StreamAction::Skip, 2)))));
    assert_eq!(
        stream_step(&delimiter, &[], &[], &[2, 1]).err(),
        Some(DecodeError::CorruptPacket("temporal delimiter mid-unit: substreams have unequal frame counts".to_string()))
    );
}

#[test]
fn setup_plan_of_demo() {
    let d = Descriptors::collect(&descriptors()).ok().unwrap();
    let sub = &d.mix_presentations[0].sub_mixes[0];
    let plan = plan_setup(&d, sub, &vec![true; d.codec_configs.len()]).ok().unwrap();
    assert_eq!(plan.slots.len(), sub.elements.len());
    assert_eq!(plan.slots[0].element, 0);
    assert_eq!(plan.slots[0].codec_config, 0);
    assert_eq!(plan.params.len(), 2);
    assert_eq!(plan.frame_size, d.codec_configs[0].num_samples_per_frame);
    assert!(matches!(plan_setup(&d, sub, &vec![false; d.codec_configs.len()]), Err(DecodeError::UnsupportedCodec)));
}

#[test]
fn unit_error_names_its_cause() {
    let trims_then_len = [
        UnitFrames { frame_len: 960, trims: vec![(0, 0)] },
        UnitFrames { frame_len: 480, trims: vec![(0, 0), (1, 0)] },
    ];
    assert_eq!(
        check_temporal_unit(&trims_then_len),
        Err(DecodeError::CorruptPacket("audio frames of one temporal unit disagree on trimming".to_string()))
    );
}

#[test]
fn short_format_chunks_are_detected() {
    let mut file = b"RIFF\0\0\0\0WAVEfmt ".to_vec();
    file.extend_from_slice(&4u32.to_le_bytes());
    file.extend_from_slice(&[1, 0, 1, 0]);
    assert!(wav_has_short_format_chunk(&file));
    assert!(parse_wav_checked(&file).is_none());
    assert!(!wav_has_short_format_chunk(b"RIFF\0\0\0\0WAVE"));
    assert!(matches!(parse_wav_checked(b"RIFF\0\0\0\0WAVE"), Some(Err(DecodeError::InvalidDescriptors(_)))));
}
