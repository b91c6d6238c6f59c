//! Audio frame OBU payloads.

use vstd::prelude::*;

use crate::error::Error;
use crate::obu::{Obu, ObuType, SpecObu};
use crate::reader::{spec_read_leb128, ByteReader};

verus! {

/// One coded audio frame for one substream.
#[derive(Debug, Clone, PartialEq, Eq)]
pub struct AudioFrame<'a> {
    /// The substream this frame belongs to (explicit or from the OBU type).
    pub substream_id: u32,
    /// Coded frame bytes, handed to the codec as-is.
    pub data: &'a [u8],
    /// Decoded samples to drop at the start of this frame.
    pub num_samples_to_trim_at_start: u32,
    /// Decoded samples to drop at the end of this frame.
    pub num_samples_to_trim_at_end: u32,
}

/// An audio frame as values.
pub struct SpecAudioFrame {
    pub substream_id: u32,
    pub data: Seq<u8>,
    pub num_samples_to_trim_at_start: u32,
    pub num_samples_to_trim_at_end: u32,
}

impl<'a> View for AudioFrame<'a> {
    type V = SpecAudioFrame;

    open spec fn view(&self) -> SpecAudioFrame {
        SpecAudioFrame {
            substream_id: self.substream_id,
            data: self.data@,
            num_samples_to_trim_at_start: self.num_samples_to_trim_at_start,
            num_samples_to_trim_at_end: self.num_samples_to_trim_at_end,
        }
    }
}

/// The audio frame an OBU carries: types 6..=23 name the substream in the
/// OBU type, type 5 spells it as a leb128 prefix of the payload; other OBU
/// types carry none.
pub open spec fn spec_audio_frame(obu: SpecObu) -> Result<Option<SpecAudioFrame>, Error> {
    let frame = |id: u32, data: Seq<u8>|
        SpecAudioFrame {
            substream_id: id,
            data,
            num_samples_to_trim_at_start: obu.header.num_samples_to_trim_at_start,
            num_samples_to_trim_at_end: obu.header.num_samples_to_trim_at_end,
        };
    match obu.header.obu_type {
        ObuType::AudioFrameId(id) => Ok(Some(frame(id as u32, obu.payload))),
        ObuType::AudioFrame => match spec_read_leb128(obu.payload, 0) {
            Ok((id, p)) => Ok(Some(frame(id, obu.payload.subrange(p, obu.payload.len() as int)))),
            Err(e) => Err(e),
        },
        _ => Ok(None),
    }
}

impl<'a> AudioFrame<'a> {
    /// Extracts the audio frame from an OBU; `None` for non-audio-frame
    /// OBUs.
    pub fn from_obu(obu: &Obu<'a>) -> (res: Result<Option<Self>, Error>)
        ensures
            match res {
                Ok(Some(f)) => spec_audio_frame(obu@) == Ok::<Option<SpecAudioFrame>, Error>(Some(f@)),
                Ok(None) => spec_audio_frame(obu@) == Ok::<Option<SpecAudioFrame>, Error>(None),
                Err(e) => spec_audio_frame(obu@) == Err::<Option<SpecAudioFrame>, Error>(e),
            },
    {
        let (substream_id, data) = match obu.header.obu_type {
            ObuType::AudioFrameId(id) => (id as u32, obu.payload),
            ObuType::AudioFrame => {
                let mut r = ByteReader::new(obu.payload);
                let id = r.read_leb128()?;
                (id, r.rest())
            },
            _ => return Ok(None),
        };
        Ok(
            Some(
                AudioFrame {
                    substream_id,
                    data,
                    num_samples_to_trim_at_start: obu.header.num_samples_to_trim_at_start,
                    num_samples_to_trim_at_end: obu.header.num_samples_to_trim_at_end,
                },
            ),
        )
    }
}

} // verus!
