//! The decisions of the C interface over the streaming decoder (create
//! from descriptors, push bytes, pull temporal units): status codes,
//! validation of the caller's settings, and the buffer protocol for
//! pulling temporal units.

use vstd::prelude::*;

use crate::decode_error::DecodeError;
use crate::layout::{spec_sound_system, SoundSystem};
use crate::stream::{ChannelOrdering, MixSelection, OutputSampleType, TrimmingSettings};

verus! {

pub const IAMFRS_OK: i32 = 0;

pub const IAMFRS_ERR_INVALID_ARG: i32 = -1;

pub const IAMFRS_ERR_UNSUPPORTED: i32 = -2;

pub const IAMFRS_ERR_CORRUPT_DATA: i32 = -3;

pub const IAMFRS_ERR_BUFFER_TOO_SMALL: i32 = -4;

pub const IAMFRS_ERR_NO_TEMPORAL_UNIT: i32 = -5;

pub const IAMFRS_ERR_INTERNAL: i32 = -6;

/// The status a decoding error is reported with: unsupported streams
/// (codec, profile or feature) and corrupt ones (packets or descriptors).
pub open spec fn spec_status_of(err: DecodeError) -> i32 {
    match err {
        DecodeError::UnsupportedCodec => IAMFRS_ERR_UNSUPPORTED,
        DecodeError::Unimplemented(_) => IAMFRS_ERR_UNSUPPORTED,
        DecodeError::UnsupportedProfile(_) => IAMFRS_ERR_UNSUPPORTED,
        DecodeError::CorruptPacket(_) => IAMFRS_ERR_CORRUPT_DATA,
        DecodeError::InvalidDescriptors(_) => IAMFRS_ERR_CORRUPT_DATA,
    }
}

pub fn status_of(err: &DecodeError) -> (status: i32)
    ensures
        status == spec_status_of(*err),
{
    match err {
        DecodeError::UnsupportedCodec | DecodeError::Unimplemented(_) | DecodeError::UnsupportedProfile(_) => {
            IAMFRS_ERR_UNSUPPORTED
        },
        DecodeError::CorruptPacket(_) | DecodeError::InvalidDescriptors(_) => IAMFRS_ERR_CORRUPT_DATA,
    }
}

/// Decoder configuration as a C caller passes it.
pub struct IamfrsSettings {
    /// IAMF sound system number
    /// (0 = stereo ... 13 = 9.1.6, 14 = binaural).
    pub output_layout: i32,
    /// 0 = auto (from the stream's bit depth), 1 = s16le, 2 = s32le.
    pub sample_type: i32,
    /// Mix presentation to decode, or -1 to select automatically (a mix
    /// declaring the requested layout, else the first).
    pub mix_presentation_id: i64,
    /// 0 = IAMF rendering order, 1 = Android/WAVE order.
    pub channel_ordering: i32,
    /// Nonzero disables trimming of num_samples_to_trim_at_start /
    /// num_samples_to_trim_at_end (for callers whose demuxer trims via
    /// edts/elst).
    pub disable_trim_start: u8,
    pub disable_trim_end: u8,
}

/// Validated decoder settings.
pub struct ResolvedSettings {
    pub layout: SoundSystem,
    pub sample_type: Option<OutputSampleType>,
    pub mix_selection: MixSelection,
    pub channel_ordering: ChannelOrdering,
    pub trimming: TrimmingSettings,
}

/// The settings are valid: a known sound system, sample type (0..=2),
/// channel ordering (0..=1), and a mix presentation id that is negative
/// (automatic) or fits 32 bits.
pub open spec fn settings_valid(c: IamfrsSettings) -> bool {
    &&& 0 <= c.output_layout <= 255 && spec_sound_system(c.output_layout as u8) is Some
    &&& 0 <= c.sample_type <= 2
    &&& 0 <= c.channel_ordering <= 1
    &&& c.mix_presentation_id <= u32::MAX
}

/// Validates C settings into decoder settings; any invalid field is an
/// invalid argument.
pub fn resolve_settings(c: &IamfrsSettings) -> (r: Result<ResolvedSettings, i32>)
    ensures
        match r {
            Ok(s) => settings_valid(*c) && Some(s.layout) == spec_sound_system(c.output_layout as u8)
                && s.sample_type == (if c.sample_type == 0 {
                None
            } else if c.sample_type == 1 {
                Some(OutputSampleType::Int16LittleEndian)
            } else {
                Some(OutputSampleType::Int32LittleEndian)
            }) && s.channel_ordering == (if c.channel_ordering == 0 {
                ChannelOrdering::Iamf
            } else {
                ChannelOrdering::Android
            }) && s.mix_selection == (if c.mix_presentation_id < 0 {
                MixSelection::Auto
            } else {
                MixSelection::ById(c.mix_presentation_id as u32)
            }) && s.trimming.trim_beginning == (c.disable_trim_start == 0) && s.trimming.trim_end == (
            c.disable_trim_end == 0),
            Err(status) => !settings_valid(*c) && status == IAMFRS_ERR_INVALID_ARG,
        },
{
    if c.output_layout < 0 || c.output_layout > 255 {
        return Err(IAMFRS_ERR_INVALID_ARG);
    }
    let layout = match SoundSystem::from_u8(c.output_layout as u8) {
        Some(layout) => layout,
        None => return Err(IAMFRS_ERR_INVALID_ARG),
    };
    let sample_type = match c.sample_type {
        0 => None,
        1 => Some(OutputSampleType::Int16LittleEndian),
        2 => Some(OutputSampleType::Int32LittleEndian),
        _ => return Err(IAMFRS_ERR_INVALID_ARG),
    };
    let channel_ordering = match c.channel_ordering {
        0 => ChannelOrdering::Iamf,
        1 => ChannelOrdering::Android,
        _ => return Err(IAMFRS_ERR_INVALID_ARG),
    };
    let mix_selection = if c.mix_presentation_id < 0 {
        MixSelection::Auto
    } else if c.mix_presentation_id <= u32::MAX as i64 {
        MixSelection::ById(c.mix_presentation_id as u32)
    } else {
        return Err(IAMFRS_ERR_INVALID_ARG);
    };
    let mut trimming = TrimmingSettings::default();
    trimming.trim_beginning = c.disable_trim_start == 0;
    trimming.trim_end = c.disable_trim_end == 0;
    Ok(ResolvedSettings { layout, sample_type, mix_selection, channel_ordering, trimming })
}

/// The status of handing a rendered unit of `unit_len` bytes to a caller's
/// buffer of `capacity` bytes: too small a buffer is reported (the unit
/// stays pending), and a non-empty unit needs a buffer.
pub fn copy_status(unit_len: usize, capacity: usize, buffer_is_null: bool) -> (status: i32)
    ensures
        status == (if unit_len > capacity {
            IAMFRS_ERR_BUFFER_TOO_SMALL
        } else if unit_len > 0 && buffer_is_null {
            IAMFRS_ERR_INVALID_ARG
        } else {
            IAMFRS_OK
        }),
{
    if unit_len > capacity {
        return IAMFRS_ERR_BUFFER_TOO_SMALL;
    }
    if unit_len > 0 && buffer_is_null {
        return IAMFRS_ERR_INVALID_ARG;
    }
    IAMFRS_OK
}

} // verus!
