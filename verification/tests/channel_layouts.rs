use iamf::channels::Channel::{Hbl, Hbr, Hfl, Hfr, Hl, Hr, Lfe, Sl5, Sl7, Sr5, Sr7, C, L2, L5, R5};
use iamf::channels::{default_recon_flags, new_channels, recon_channel_gains, Channel, CHANNEL_COUNT};
use iamf::descriptors::{AudioElementConfig, ChannelAudioLayer};
use iamf::element::substream_channels;
use iamf::decode_error::DecodeError;
use iamf::layout::{loudspeaker_sound_system, SoundSystem};
use iamf::reconstruct::plan_layers;

/// `CHANNEL_COUNT` sizes fixed per-channel arrays indexed by
/// `Channel::index()`; it must track the variant count.
#[test]
fn channel_count_matches_last_variant() {
    assert_eq!(Channel::Lfe.index() + 1, CHANNEL_COUNT);
}

#[test]
fn stereo_to_51_new_channels() {
    assert_eq!(new_channels(Some(1), 2), vec![L5, R5, C, Lfe]);
}

#[test]
fn mono_to_stereo_new_channels() {
    assert_eq!(new_channels(Some(0), 1), vec![L2]);
}

#[test]
fn layout_312_to_512_new_channels() {
    assert_eq!(new_channels(Some(8), 3), vec![L5, R5]);
}

#[test]
fn layout_51_to_714_new_channels() {
    assert_eq!(new_channels(Some(2), 7), vec![Sl7, Sr7, Hfl, Hfr, Hbl, Hbr]);
}

#[test]
fn default_recon_51_from_stereo() {
    // Stereo -> 5.1: Ls/Rs are reconstructed.
    let flags = default_recon_flags(1, 2);
    let pairs = recon_channel_gains(2, flags, &[1.0f32, 1.0]);
    assert_eq!(pairs, vec![(Sl5, 1.0), (Sr5, 1.0)]);
}

#[test]
fn default_recon_512_from_312() {
    // 3.1.2 -> 5.1.2: Ls/Rs (surround 3->5) and Ltf/Rtf (s2==5, heights
    // equal).
    let flags = default_recon_flags(8, 3);
    let pairs = recon_channel_gains(3, flags, &[0.5f32, 0.5, 0.25, 0.25]);
    assert_eq!(pairs, vec![(Sl5, 0.5), (Sr5, 0.5), (Hl, 0.25), (Hr, 0.25)]);
}

#[test]
fn channels_for_channel_based_layers() {
    // Layer 1: stereo (1 coupled substream); layer 2: +4 substreams of
    // which 2 coupled (5.1 upgrade).
    let layer = |substreams, coupled| ChannelAudioLayer {
        loudspeaker_layout: 1,
        substream_count: substreams,
        coupled_substream_count: coupled,
        recon_gain_is_present: false,
        output_gain: None,
        expanded_loudspeaker_layout: None,
    };
    let config = AudioElementConfig::ChannelBased { layers: vec![layer(1, 1), layer(3, 2)] };
    assert_eq!(substream_channels(&config), vec![2, 2, 2, 1]);
}

#[test]
fn channels_for_ambisonics() {
    let mono = AudioElementConfig::AmbisonicsMono {
        output_channel_count: 4,
        substream_count: 4,
        channel_mapping: vec![0, 1, 2, 3],
    };
    assert_eq!(substream_channels(&mono), vec![1, 1, 1, 1]);

    let projection = AudioElementConfig::AmbisonicsProjection {
        output_channel_count: 4,
        substream_count: 3,
        coupled_substream_count: 1,
        demixing_matrix: vec![],
    };
    assert_eq!(substream_channels(&projection), vec![2, 1, 1]);
}

fn plain_layer(layout: u8, substreams: u8, coupled: u8) -> ChannelAudioLayer {
    ChannelAudioLayer {
        loudspeaker_layout: layout,
        substream_count: substreams,
        coupled_substream_count: coupled,
        recon_gain_is_present: false,
        output_gain: None,
        expanded_loudspeaker_layout: None,
    }
}

#[test]
fn layouts_play_on_their_sound_systems() {
    assert_eq!(loudspeaker_sound_system(0), Some(SoundSystem::Mono));
    assert_eq!(loudspeaker_sound_system(1), Some(SoundSystem::A));
    assert_eq!(loudspeaker_sound_system(5), Some(SoundSystem::I));
    assert_eq!(loudspeaker_sound_system(7), Some(SoundSystem::J));
    assert_eq!(loudspeaker_sound_system(9), None);
}

#[test]
fn single_layer_plan_passes_through() {
    let plan = plan_layers(&[plain_layer(1, 1, 1)], SoundSystem::A, false).ok().unwrap();
    assert_eq!(plan.layer, 0);
    assert_eq!(plan.channels_in, vec![L2, Channel::R2]);
    assert_eq!(plan.default_recon, None);
    let plan = plan_layers(&[plain_layer(2, 4, 2)], SoundSystem::B, false).ok().unwrap();
    assert_eq!(plan.channels_in.len(), 6);
}

#[test]
fn scalable_plan_selects_matching_layer() {
    let layers = [plain_layer(1, 1, 1), plain_layer(2, 3, 1)];
    let stereo = plan_layers(&layers, SoundSystem::A, false).ok().unwrap();
    assert_eq!(stereo.layer, 0);
    assert_eq!(stereo.channels_in.len(), 2);
    let surround = plan_layers(&layers, SoundSystem::B, false).ok().unwrap();
    assert_eq!(surround.layer, 1);
    assert_eq!(surround.layout, 2);
    assert_eq!(surround.channels_in, vec![L2, Channel::R2, L5, R5, C, Lfe]);
    assert_eq!(surround.default_recon, Some(0b11000));
    // Binaural selects like stereo, unless every layer is forced.
    assert_eq!(plan_layers(&layers, SoundSystem::Binaural, false).ok().unwrap().layer, 0);
    assert_eq!(plan_layers(&layers, SoundSystem::Binaural, true).ok().unwrap().layer, 1);
    // No exact match: the first layer with more channels than the target.
    assert_eq!(plan_layers(&layers, SoundSystem::Mono, false).ok().unwrap().layer, 0);
    assert_eq!(plan_layers(&layers, SoundSystem::J, false).ok().unwrap().layer, 1);
}

#[test]
fn layer_plan_collects_output_gains() {
    let mut first = plain_layer(1, 1, 1);
    first.output_gain = Some((0b110000, 256));
    let layers = [first, plain_layer(2, 3, 1)];
    let plan = plan_layers(&layers, SoundSystem::B, false).ok().unwrap();
    assert_eq!(plan.output_gains, vec![(Channel::R2, 256), (L2, 256)]);
}

#[test]
fn layer_plan_refusals() {
    assert!(matches!(plan_layers(&[], SoundSystem::A, false), Err(DecodeError::InvalidDescriptors(_))));
    let mut expanded = plain_layer(15, 1, 1);
    expanded.expanded_loudspeaker_layout = Some(3);
    assert!(matches!(
        plan_layers(&[expanded], SoundSystem::A, false),
        Err(DecodeError::Unimplemented("expanded/binaural loudspeaker layouts"))
    ));
    assert!(matches!(plan_layers(&[plain_layer(9, 1, 1)], SoundSystem::A, false), Err(DecodeError::Unimplemented(_))));
}
