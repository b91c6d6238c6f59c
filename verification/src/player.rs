//! What the player reads from a standalone IA sequence before decoding:
//! where its descriptors end, and which mix presentations and codec it
//! declares.

use vstd::prelude::*;

use crate::descriptors::{self, spec_descriptor, CodecId, Descriptor, SpecCodecId, SpecDescriptor};
use crate::obu::{lemma_parse_obu_advances, spec_parse_obu, Obu, ObuType};
use crate::reader::ByteReader;

verus! {

pub open spec fn is_descriptor_type(t: ObuType) -> bool {
    t == ObuType::SequenceHeader || t == ObuType::CodecConfig || t == ObuType::AudioElement || t
        == ObuType::MixPresentation
}

/// Walks the OBUs from `pos`, `end` being where the last descriptor OBU
/// ended: the first non-descriptor OBU splits at its start (or `end`,
/// whichever is later); running out of input splits at `end`; a malformed
/// OBU means there is no split.
pub open spec fn spec_split_from(data: Seq<u8>, pos: int, end: int) -> Option<int>
    decreases data.len() - pos,
{
    match spec_parse_obu(data, pos) {
        Err(_) => None,
        Ok((obu, p)) => if is_descriptor_type(obu.header.obu_type) {
            if p >= data.len() || p <= pos {
                Some(p)
            } else {
                spec_split_from(data, p, p)
            }
        } else {
            Some(if pos > end {
                pos
            } else {
                end
            })
        },
    }
}

proof fn lemma_split_from_within(data: Seq<u8>, pos: int, end: int)
    requires
        0 <= end <= pos <= data.len(),
    ensures
        spec_split_from(data, pos, end) matches Some(n) ==> 0 <= n <= data.len(),
    decreases data.len() - pos,
{
    lemma_parse_obu_advances(data, pos);
    match spec_parse_obu(data, pos) {
        Ok((obu, p)) => {
            if is_descriptor_type(obu.header.obu_type) && !(p >= data.len() || p <= pos) {
                lemma_split_from_within(data, p, p);
            }
        },
        Err(_) => {},
    }
}

/// The split point lies within the data, so the descriptors are a prefix
/// of it.
pub proof fn lemma_split_within_data(data: Seq<u8>)
    ensures
        spec_split_from(data, 0, 0) matches Some(n) ==> 0 <= n <= data.len(),
{
    lemma_split_from_within(data, 0, 0);
}

/// Byte offset where the descriptor OBUs end and temporal units begin.
pub fn descriptor_split(data: &[u8]) -> (r: Option<usize>)
    ensures
        match r {
            Some(n) => spec_split_from(data@, 0, 0) == Some(n as int),
            None => spec_split_from(data@, 0, 0) is None,
        },
{
    let mut reader = ByteReader::new(data);
    let mut end: usize = 0;
    loop
        invariant
            reader.input() == data@,
            0 <= reader.cursor() <= data@.len(),
            end <= data@.len(),
            spec_split_from(data@, reader.cursor(), end as int) == spec_split_from(data@, 0, 0),
        decreases data@.len() - reader.cursor(),
    {
        let position = reader.position();
        proof {
            lemma_parse_obu_advances(data@, position as int);
        }
        let obu = match Obu::parse(&mut reader) {
            Ok(obu) => obu,
            Err(_) => return None,
        };
        match obu.header.obu_type {
            ObuType::SequenceHeader | ObuType::CodecConfig | ObuType::AudioElement | ObuType::MixPresentation => {
                end = reader.position();
            },
            _ => {
                return Some(
                    if position > end {
                        position
                    } else {
                        end
                    },
                );
            },
        }
        if reader.position() >= data.len() {
            return Some(end);
        }
    }
}

/// The mix presentation ids and the codec an IA sequence declares.
pub struct MixInfo {
    /// Ids of the mix presentations, in stream order (repeats included).
    pub ids: Vec<u32>,
    /// The codec of the last codec config, if any.
    pub codec: Option<CodecId>,
}

/// What a descriptor adds to the notes: a mix presentation's id, or a
/// codec config's codec (replacing the previous one).
pub open spec fn note(d: Result<Option<SpecDescriptor>, crate::error::Error>, ids: Seq<u32>, codec: Option<SpecCodecId>) -> (
    Seq<u32>,
    Option<SpecCodecId>,
) {
    match d {
        Ok(Some(SpecDescriptor::MixPresentation(mp))) => (ids.push(mp.mix_presentation_id), codec),
        Ok(Some(SpecDescriptor::CodecConfig(cc))) => (ids, Some(cc.codec_id)),
        _ => (ids, codec),
    }
}

/// Walks the OBUs from `pos` while they parse, noting each mix
/// presentation's id and the last codec config's codec; descriptors that
/// fail to parse are skipped.
pub open spec fn spec_mix_info_from(data: Seq<u8>, pos: int, ids: Seq<u32>, codec: Option<SpecCodecId>) -> (
    Seq<u32>,
    Option<SpecCodecId>,
)
    decreases data.len() - pos,
{
    match spec_parse_obu(data, pos) {
        Err(_) => (ids, codec),
        Ok((obu, p)) => {
            let (ids2, codec2) = note(spec_descriptor(obu), ids, codec);
            if p >= data.len() || p <= pos {
                (ids2, codec2)
            } else {
                spec_mix_info_from(data, p, ids2, codec2)
            }
        },
    }
}

pub open spec fn codec_view(c: Option<CodecId>) -> Option<SpecCodecId> {
    match c {
        Some(id) => Some(id@),
        None => None,
    }
}

fn note_descriptor(obu: &Obu, info: &mut MixInfo)
    ensures
        (final(info).ids@, codec_view(final(info).codec)) == note(
            spec_descriptor(obu@),
            old(info).ids@,
            codec_view(old(info).codec),
        ),
{
    match descriptors::parse(obu) {
        Ok(Some(Descriptor::MixPresentation(mp))) => {
            info.ids.push(mp.mix_presentation_id);
        },
        Ok(Some(Descriptor::CodecConfig(cc))) => {
            info.codec = Some(cc.codec_id);
        },
        _ => {},
    }
}

/// The mix presentation ids and codec of a descriptor blob, for display.
pub fn parse_mix_info(descriptors_bytes: &[u8]) -> (info: MixInfo)
    ensures
        (info.ids@, codec_view(info.codec)) == spec_mix_info_from(descriptors_bytes@, 0, Seq::empty(), None),
{
    let mut info = MixInfo { ids: Vec::new(), codec: None };
    let mut reader = ByteReader::new(descriptors_bytes);
    loop
        invariant
            reader.input() == descriptors_bytes@,
            0 <= reader.cursor() <= descriptors_bytes@.len(),
            spec_mix_info_from(descriptors_bytes@, reader.cursor(), info.ids@, codec_view(info.codec))
                == spec_mix_info_from(descriptors_bytes@, 0, Seq::empty(), None),
        decreases descriptors_bytes@.len() - reader.cursor(),
    {
        let ghost pos = reader.cursor();
        proof {
            lemma_parse_obu_advances(descriptors_bytes@, pos);
        }
        let obu = match Obu::parse(&mut reader) {
            Ok(obu) => obu,
            Err(_) => return info,
        };
        note_descriptor(&obu, &mut info);
        if reader.is_empty() {
            return info;
        }
    }
}

/// A key press, as far as the player tells keys apart.
#[derive(Debug, Clone, Copy, PartialEq, Eq, Structural)]
pub enum KeyInput {
    Char(char),
    Left,
    Right,
    Esc,
    Other,
}

/// What a key asks the player to do.
#[derive(Debug, Clone, Copy, PartialEq, Eq, Structural)]
pub enum PlayerKey {
    Quit,
    ToggleBinaural,
    TogglePause,
    SeekBack,
    SeekForward,
    NextMix,
    Other,
}

/// The player's controls: `q`, Esc or Ctrl+C quit, `b` flips between
/// binaural and stereo, space pauses, the arrows seek, `m` moves to the
/// next mix presentation.
pub open spec fn spec_player_key(key: KeyInput, control: bool) -> PlayerKey {
    match key {
        KeyInput::Char(c) => if c == 'q' {
            PlayerKey::Quit
        } else if c == 'c' && control {
            PlayerKey::Quit
        } else if c == 'b' {
            PlayerKey::ToggleBinaural
        } else if c == ' ' {
            PlayerKey::TogglePause
        } else if c == 'm' {
            PlayerKey::NextMix
        } else {
            PlayerKey::Other
        },
        KeyInput::Esc => PlayerKey::Quit,
        KeyInput::Left => PlayerKey::SeekBack,
        KeyInput::Right => PlayerKey::SeekForward,
        KeyInput::Other => PlayerKey::Other,
    }
}

pub fn player_key(key: KeyInput, control: bool) -> (k: PlayerKey)
    ensures
        k == spec_player_key(key, control),
{
    match key {
        KeyInput::Char(c) => if c == 'q' {
            PlayerKey::Quit
        } else if c == 'c' && control {
            PlayerKey::Quit
        } else if c == 'b' {
            PlayerKey::ToggleBinaural
        } else if c == ' ' {
            PlayerKey::TogglePause
        } else if c == 'm' {
            PlayerKey::NextMix
        } else {
            PlayerKey::Other
        },
        KeyInput::Esc => PlayerKey::Quit,
        KeyInput::Left => PlayerKey::SeekBack,
        KeyInput::Right => PlayerKey::SeekForward,
        KeyInput::Other => PlayerKey::Other,
    }
}

/// What the player shows and plays: binaural or stereo, paused or not, and
/// the mix presentation chosen by the listener (`None`: the automatic one).
#[derive(Debug, Clone, Copy, PartialEq, Eq, Structural)]
pub struct PlayerState {
    pub binaural: bool,
    pub paused: bool,
    pub mix_index: Option<usize>,
}

/// What the player does after a key.
#[derive(Debug, Clone, Copy, PartialEq, Eq, Structural)]
pub enum PlayerAction {
    Continue,
    Quit,
    /// Moves the playback position by this many frames.
    Seek(i64),
    /// Decodes the mix presentation at this index again; on success it
    /// becomes the state's `mix_index`.
    Redecode(usize),
}

/// The player's state at start: binaural (the demo), playing, automatic
/// mix selection.
pub fn player_start() -> (s: PlayerState)
    ensures
        s == (PlayerState { binaural: true, paused: false, mix_index: None }),
{
    PlayerState { binaural: true, paused: false, mix_index: None }
}

/// One step of the player: the next state and action for a key, with the
/// stream at `rate` frames per second and `mix_count` mix presentations.
/// Seeking moves by 2 seconds; the next mix after the automatic choice is
/// the second one, then they follow in turn, and with a single mix the key
/// does nothing.
pub fn player_step(s: PlayerState, key: PlayerKey, rate: u32, mix_count: usize) -> (r: (PlayerState, PlayerAction))
    ensures
        key is Quit ==> r == (s, PlayerAction::Quit),
        key is ToggleBinaural ==> r.0 == (PlayerState { binaural: !s.binaural, ..s }) && r.1 is Continue,
        key is TogglePause ==> r.0 == (PlayerState { paused: !s.paused, ..s }) && r.1 is Continue,
        key is SeekBack ==> r == (s, PlayerAction::Seek((-2 * rate) as i64)),
        key is SeekForward ==> r == (s, PlayerAction::Seek((2 * rate) as i64)),
        key is NextMix && mix_count > 1 ==> r == (s, PlayerAction::Redecode(
            match s.mix_index {
                None => 1,
                Some(i) => ((i + 1) % (mix_count as int)) as usize,
            },
        )),
        (key is NextMix && mix_count <= 1) || key is Other ==> r == (s, PlayerAction::Continue),
{
    match key {
        PlayerKey::Quit => (s, PlayerAction::Quit),
        PlayerKey::ToggleBinaural => (PlayerState { binaural: !s.binaural, ..s }, PlayerAction::Continue),
        PlayerKey::TogglePause => (PlayerState { paused: !s.paused, ..s }, PlayerAction::Continue),
        PlayerKey::SeekBack => (s, PlayerAction::Seek(-(rate as i64) * 2)),
        PlayerKey::SeekForward => (s, PlayerAction::Seek(rate as i64 * 2)),
        PlayerKey::NextMix => {
            if mix_count > 1 {
                let next = match s.mix_index {
                    None => 1,
                    Some(i) => if i < usize::MAX {
                        (i + 1) % mix_count
                    } else {
                        (i % mix_count + 1) % mix_count
                    },
                };
                proof {
                    if let Some(i) = s.mix_index {
                        if i == usize::MAX {
                            vstd::arithmetic::div_mod::lemma_add_mod_noop(i as int, 1, mix_count as int);
                            vstd::arithmetic::div_mod::lemma_small_mod(1, mix_count as nat);
                        }
                    }
                }
                (s, PlayerAction::Redecode(next))
            } else {
                (s, PlayerAction::Continue)
            }
        },
        PlayerKey::Other => (s, PlayerAction::Continue),
    }
}

} // verus!
