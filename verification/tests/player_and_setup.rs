use iamf::decode_error::DecodeError;
use iamf::demo::descriptors;
use iamf::descriptors::SequenceHeader;
use iamf::layout::SoundSystem;
use iamf::mp4::Cursor;
use iamf::player::{player_key, player_start, player_step, KeyInput, PlayerAction, PlayerKey, PlayerState};
use iamf::presentation::Descriptors;
use iamf::profile::ProfileSet;
use iamf::reader::ByteReader;
use iamf::stream::{batch_target_for, choose_mix, register_output_gain, register_slot_params, MixSelection, ParamTarget};

#[test]
fn player_keys() {
    assert_eq!(player_key(KeyInput::Char('q'), false), PlayerKey::Quit);
    assert_eq!(player_key(KeyInput::Esc, false), PlayerKey::Quit);
    assert_eq!(player_key(KeyInput::Char('c'), true), PlayerKey::Quit);
    assert_eq!(player_key(KeyInput::Char('c'), false), PlayerKey::Other);
    assert_eq!(player_key(KeyInput::Char('b'), false), PlayerKey::ToggleBinaural);
    assert_eq!(player_key(KeyInput::Char(' '), false), PlayerKey::TogglePause);
    assert_eq!(player_key(KeyInput::Left, false), PlayerKey::SeekBack);
    assert_eq!(player_key(KeyInput::Right, false), PlayerKey::SeekForward);
    assert_eq!(player_key(KeyInput::Char('m'), false), PlayerKey::NextMix);
    assert_eq!(player_key(KeyInput::Other, false), PlayerKey::Other);
}

#[test]
fn player_steps() {
    let s = player_start();
    assert_eq!(s, PlayerState { binaural: true, paused: false, mix_index: None });
    assert_eq!(player_step(s, PlayerKey::Quit, 48000, 3), (s, PlayerAction::Quit));
    let (b, a) = player_step(s, PlayerKey::ToggleBinaural, 48000, 3);
    assert_eq!((b.binaural, b.paused, a), (false, false, PlayerAction::Continue));
    let (p, _) = player_step(s, PlayerKey::TogglePause, 48000, 3);
    assert!(p.paused);
    assert_eq!(player_step(s, PlayerKey::SeekBack, 48000, 3).1, PlayerAction::Seek(-96000));
    assert_eq!(player_step(s, PlayerKey::SeekForward, 44100, 3).1, PlayerAction::Seek(88200));
    assert_eq!(player_step(s, PlayerKey::NextMix, 48000, 3).1, PlayerAction::Redecode(1));
    let at_last = PlayerState { mix_index: Some(2), ..s };
    assert_eq!(player_step(at_last, PlayerKey::NextMix, 48000, 3), (at_last, PlayerAction::Redecode(0)));
    assert_eq!(player_step(s, PlayerKey::NextMix, 48000, 1), (s, PlayerAction::Continue));
    assert_eq!(player_step(s, PlayerKey::Other, 48000, 3), (s, PlayerAction::Continue));
}

#[test]
fn mix_choice_checks_in_order() {
    let d = Descriptors::collect(&descriptors()).ok().unwrap();
    assert_eq!(choose_mix(&d, ProfileSet::all(), MixSelection::Auto, SoundSystem::A), Ok(0));
    assert!(matches!(
        choose_mix(&d, ProfileSet::all(), MixSelection::ByIndex(5), SoundSystem::A),
        Err(DecodeError::InvalidDescriptors(m)) if m == "no such mix presentation"
    ));
    let mut declared = Descriptors::collect(&descriptors()).ok().unwrap();
    declared.sequence_header = Some(SequenceHeader { primary_profile: 1, additional_profile: 1 });
    assert!(matches!(
        choose_mix(&declared, ProfileSet::simple(), MixSelection::Auto, SoundSystem::A),
        Err(DecodeError::UnsupportedProfile(m)) if m == "stream declares profiles 1/1 outside the requested set"
    ));
    let mut none = Descriptors::collect(&descriptors()).ok().unwrap();
    none.mix_presentations.clear();
    assert!(matches!(
        choose_mix(&none, ProfileSet::all(), MixSelection::Auto, SoundSystem::A),
        Err(DecodeError::InvalidDescriptors(m)) if m == "no mix presentations"
    ));
    let mut two = Descriptors::collect(&descriptors()).ok().unwrap();
    let extra = two.mix_presentations[0].sub_mixes[0].clone();
    two.mix_presentations[0].sub_mixes.push(extra);
    assert!(choose_mix(&two, ProfileSet::all(), MixSelection::ByIndex(0), SoundSystem::A).is_err());
}

#[test]
fn batch_registration_last_wins() {
    let d = Descriptors::collect(&descriptors()).ok().unwrap();
    let mut index: Vec<ParamTarget> = Vec::new();
    let sub = &d.mix_presentations[0].sub_mixes[0];
    register_slot_params(&mut index, 0, &d.audio_elements[0], &sub.elements[0]);
    register_output_gain(&mut index, sub);
    register_slot_params(&mut index, 1, &d.audio_elements[0], &sub.elements[0]);
    assert_eq!(batch_target_for(&index, 100), Some(2));
    assert_eq!(batch_target_for(&index, 101), Some(1));
    assert_eq!(batch_target_for(&index, 7), None);
}

#[test]
fn failed_reads_leave_the_position() {
    let data = [1u8, 2, 3];
    let mut r = ByteReader::new(&data);
    assert_eq!(r.read_u8(), Ok(1));
    assert!(r.read_bytes(5).is_err());
    assert_eq!(r.position(), 1);
    assert!(r.read_u32_be().is_err());
    assert_eq!(r.position(), 1);
    assert_eq!(r.read_u16_be(), Ok(0x0203));
    assert!(r.read_u8().is_err());
    assert_eq!(r.position(), 3);
    let mut c = Cursor::new(&data);
    assert!(c.u32().is_err());
    assert_eq!(c.remaining(), 3);
}

#[test]
fn decimal_text() {
    assert_eq!(iamf::error::decimal_string(0), "0");
    assert_eq!(iamf::error::decimal_string(1234), "1234");
    assert_eq!(iamf::error::decimal_string(usize::MAX), usize::MAX.to_string());
}
