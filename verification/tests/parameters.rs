use iamf::descriptors::{ChannelAudioLayer, ParamDefinition};
use iamf::params::{MixGainAnimation, ParamContext, ParamCursor, ParameterBlock, SubblockData};

fn definition(mode: bool) -> ParamDefinition {
    ParamDefinition {
        parameter_id: 7,
        parameter_rate: 48000,
        mode,
        duration: if mode { 0 } else { 1920 },
        constant_subblock_duration: if mode { 0 } else { 960 },
        subblock_durations: Vec::new(),
    }
}

#[test]
fn mix_gain_mode0_constant_subblocks() {
    // Mode 0: timing from the definition (1920/960 => 2 subblocks).
    let mut payload = vec![0x07]; // parameter_id
    payload.push(0x00); // subblock 0: animation_type step
    payload.extend((-256i16).to_be_bytes());
    payload.push(0x01); // subblock 1: linear
    payload.extend((-256i16).to_be_bytes());
    payload.extend(0i16.to_be_bytes());

    let block = ParameterBlock::parse(&payload, &definition(false), &ParamContext::MixGain).unwrap();
    assert_eq!(block.subblocks.len(), 2);
    assert_eq!(block.subblocks[0].duration, 960);
    assert_eq!(block.subblocks[0].data, SubblockData::MixGain(MixGainAnimation::Step { start: -256 }));
    assert_eq!(block.subblocks[1].data, SubblockData::MixGain(MixGainAnimation::Linear { start: -256, end: 0 }));
}

#[test]
fn demixing_mode1_inline_timing() {
    // Mode 1: duration=960, constant_subblock_duration=960 => 1 subblock.
    let mut payload = vec![0x07];
    payload.extend([0xc0, 0x07]); // duration = 960
    payload.extend([0xc0, 0x07]); // constant_subblock_duration = 960
    payload.push(0x03 << 5); // dmixp_mode = 3

    let block = ParameterBlock::parse(&payload, &definition(true), &ParamContext::Demixing).unwrap();
    assert_eq!(block.subblocks.len(), 1);
    assert_eq!(block.subblocks[0].data, SubblockData::Demixing { dmixp_mode: 3 });
}

#[test]
fn recon_gain_respects_layer_flags() {
    let layer = |present| ChannelAudioLayer {
        loudspeaker_layout: 2,
        substream_count: 1,
        coupled_substream_count: 0,
        recon_gain_is_present: present,
        output_gain: None,
        expanded_loudspeaker_layout: None,
    };
    let mut def = definition(false);
    def.duration = 960;
    def.constant_subblock_duration = 960;

    let mut payload = vec![0x07];
    payload.push(0x05); // layer 1 flags: bits 0 and 2
    payload.extend([200, 180]); // two gain bytes

    let layers = [layer(false), layer(true)];
    let block = ParameterBlock::parse(&payload, &def, &ParamContext::ReconGain(&layers)).unwrap();
    let SubblockData::ReconGain(per_layer) = &block.subblocks[0].data else {
        panic!("expected recon gain");
    };
    assert_eq!(per_layer[0], None);
    assert_eq!(per_layer[1], Some((0x05, vec![200, 180])));
}

#[test]
fn cursor_spanning_block_covers_multiple_units() {
    // One block: two 960-sample subblocks with different values.
    let mut cursor = ParamCursor::default();
    cursor.push(1u8, 960);
    cursor.push(2u8, 960);
    assert_eq!(cursor.take_for_unit(960), Some(1));
    assert_eq!(cursor.take_for_unit(960), Some(2));
    // Timeline dry: last value stays in effect.
    assert_eq!(cursor.take_for_unit(960), Some(2));
}

#[test]
fn cursor_uses_value_covering_unit_start() {
    // A subblock boundary mid-unit: the unit takes the value at its
    // start, and the next unit lands in the following subblock.
    let mut cursor = ParamCursor::default();
    cursor.push(7u8, 1440);
    cursor.push(8u8, 480);
    assert_eq!(cursor.take_for_unit(960), Some(7));
    assert_eq!(cursor.take_for_unit(960), Some(7));
    assert_eq!(cursor.take_for_unit(960), Some(8));
}

#[test]
fn cursor_empty_returns_none_until_first_value() {
    let mut cursor: ParamCursor<u8> = ParamCursor::default();
    assert_eq!(cursor.take_for_unit(960), None);
    cursor.push(3, 960);
    assert_eq!(cursor.take_for_unit(960), Some(3));
    cursor.clear();
    assert_eq!(cursor.take_for_unit(960), None);
}

#[test]
fn hostile_subblock_count_bounded() {
    // Mode 1 with a huge explicit num_subblocks and no data.
    let mut payload = vec![0x07];
    payload.extend([0xc0, 0x07]); // duration
    payload.push(0x00); // constant_subblock_duration = 0
    payload.extend([0xff, 0xff, 0xff, 0x7f]); // num_subblocks huge
    assert!(ParameterBlock::parse(&payload, &definition(true), &ParamContext::MixGain).is_err());
}
