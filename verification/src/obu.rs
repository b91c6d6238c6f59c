//! OBU framing.

use vstd::prelude::*;

use crate::error::Error;
use crate::reader::{agrees, spec_read_bytes, spec_read_leb128, spec_read_u8, view_res, ByteReader, SpecResult};

verus! {

/// OBU types (obu_type).
///
/// Non-exhaustive: post-v1.1 spec revisions add OBU types.
#[derive(Debug, Clone, Copy, PartialEq, Eq, Structural)]
#[non_exhaustive]
pub enum ObuType {
    CodecConfig,
    AudioElement,
    MixPresentation,
    ParameterBlock,
    TemporalDelimiter,
    AudioFrame,
    /// Audio frame with an implicit substream ID of 0..=17 (types 6..=23).
    AudioFrameId(u8),
    /// Metadata OBU (type 24, added after IAMF v1.1).
    Metadata,
    SequenceHeader,
}

/// The OBU type a 5-bit `obu_type` field denotes; 25..=30 are reserved.
pub open spec fn spec_obu_type(raw: u8, offset: usize) -> Result<ObuType, Error> {
    if raw == 0 {
        Ok(ObuType::CodecConfig)
    } else if raw == 1 {
        Ok(ObuType::AudioElement)
    } else if raw == 2 {
        Ok(ObuType::MixPresentation)
    } else if raw == 3 {
        Ok(ObuType::ParameterBlock)
    } else if raw == 4 {
        Ok(ObuType::TemporalDelimiter)
    } else if raw == 5 {
        Ok(ObuType::AudioFrame)
    } else if 6 <= raw <= 23 {
        Ok(ObuType::AudioFrameId((raw - 6) as u8))
    } else if raw == 24 {
        Ok(ObuType::Metadata)
    } else if 25 <= raw <= 30 {
        Err(Error::ReservedObuType { obu_type: raw, offset })
    } else {
        Ok(ObuType::SequenceHeader)
    }
}

impl ObuType {
    pub fn from_raw(raw: u8, offset: usize) -> (res: Result<Self, Error>)
        requires
            raw <= 31,
        ensures
            res == spec_obu_type(raw, offset),
    {
        match raw {
            0 => Ok(ObuType::CodecConfig),
            1 => Ok(ObuType::AudioElement),
            2 => Ok(ObuType::MixPresentation),
            3 => Ok(ObuType::ParameterBlock),
            4 => Ok(ObuType::TemporalDelimiter),
            5 => Ok(ObuType::AudioFrame),
            6..=23 => Ok(ObuType::AudioFrameId(raw - 6)),
            24 => Ok(ObuType::Metadata),
            25..=30 => Err(Error::ReservedObuType { obu_type: raw, offset }),
            _ => Ok(ObuType::SequenceHeader),
        }
    }

    pub open spec fn spec_is_audio_frame(&self) -> bool {
        self is AudioFrame || self is AudioFrameId
    }

    /// True for OBUs carrying coded audio (types 5..=23).
    pub fn is_audio_frame(&self) -> (b: bool)
        ensures
            b == self.spec_is_audio_frame(),
    {
        match self {
            ObuType::AudioFrame | ObuType::AudioFrameId(_) => true,
            _ => false,
        }
    }
}

/// Parsed OBU header
#[derive(Debug, Clone, Copy, PartialEq, Eq, Structural)]
pub struct ObuHeader {
    pub obu_type: ObuType,
    pub redundant_copy: bool,
    /// Present iff obu_trimming_status_flag was set (audio frames only).
    pub num_samples_to_trim_at_end: u32,
    pub num_samples_to_trim_at_start: u32,
    pub extension_header_size: u32,
}

/// One OBU: its header plus a borrowed view of its payload bytes.
#[derive(Debug, Clone, PartialEq, Eq)]
pub struct Obu<'a> {
    pub header: ObuHeader,
    pub payload: &'a [u8],
}

/// An OBU as values: header and payload bytes.
pub struct SpecObu {
    pub header: ObuHeader,
    pub payload: Seq<u8>,
}

impl<'a> View for Obu<'a> {
    type V = SpecObu;

    open spec fn view(&self) -> SpecObu {
        SpecObu { header: self.header, payload: self.payload@ }
    }
}

/// The fields inside an OBU's sized body: `(trim_end, trim_start,
/// extension_header_size, payload)`. Errors carry body-relative offsets,
/// except a too-short extension, reported at the OBU start.
pub open spec fn spec_obu_body(body: Seq<u8>, trimming: bool, extension: bool, header_offset: int) -> Result<
    (u32, u32, u32, Seq<u8>),
    Error,
> {
    let trims: SpecResult<(u32, u32)> = if trimming {
        match spec_read_leb128(body, 0) {
            Ok((end, p)) => match spec_read_leb128(body, p) {
                Ok((start, q)) => Ok(((end, start), q)),
                Err(e) => Err(e),
            },
            Err(e) => Err(e),
        }
    } else {
        Ok(((0u32, 0u32), 0))
    };
    match trims {
        Err(e) => Err(e),
        Ok(((end, start), p)) => {
            let ext: SpecResult<u32> = if extension {
                match spec_read_leb128(body, p) {
                    Ok((size, q)) => match spec_read_bytes(body, q, size as int) {
                        Ok((_, r)) => Ok((size, r)),
                        Err(_) => Err(Error::InvalidObuSize { offset: header_offset as usize }),
                    },
                    Err(e) => Err(e),
                }
            } else {
                Ok((0u32, p))
            };
            match ext {
                Err(e) => Err(e),
                Ok((size, q)) => Ok((end, start, size, body.subrange(q, body.len() as int))),
            }
        },
    }
}

/// One OBU at `pos`: header byte (5-bit type, redundant/trimming/extension
/// flags), leb128 `obu_size`, then a body of that size.
pub open spec fn spec_parse_obu(s: Seq<u8>, pos: int) -> SpecResult<SpecObu> {
    match spec_read_u8(s, pos) {
        Err(e) => Err(e),
        Ok((byte, p1)) => match spec_obu_type(byte >> 3u8, pos as usize) {
            Err(e) => Err(e),
            Ok(obu_type) => match spec_read_leb128(s, p1) {
                Err(e) => Err(e),
                Ok((size, p2)) => match spec_read_bytes(s, p2, size as int) {
                    Err(e) => Err(e),
                    Ok((body, p3)) => match spec_obu_body(
                        body,
                        byte & 0x02 != 0,
                        byte & 0x01 != 0,
                        pos,
                    ) {
                        Err(e) => Err(e),
                        Ok((end, start, ext, payload)) => Ok(
                            (
                                SpecObu {
                                    header: ObuHeader {
                                        obu_type,
                                        redundant_copy: byte & 0x04 != 0,
                                        num_samples_to_trim_at_end: end,
                                        num_samples_to_trim_at_start: start,
                                        extension_header_size: ext,
                                    },
                                    payload,
                                },
                                p3,
                            ),
                        ),
                    },
                },
            },
        },
    }
}

impl<'a> Obu<'a> {
    /// Parses a single OBU from the front of `reader`, leaving the reader
    /// positioned at the next OBU.
    pub fn parse(reader: &mut ByteReader<'a>) -> (res: Result<Self, Error>)
        ensures
            final(reader).input() == old(reader).input(),
            final(reader).cursor() <= final(reader).input().len(),
            agrees(view_res(res), final(reader).cursor(), spec_parse_obu(old(reader).input(), old(reader).cursor())),
    {
        let header_offset = reader.position();
        let byte = reader.read_u8()?;
        assert(byte >> 3u8 <= 31) by (bit_vector);
        let obu_type = ObuType::from_raw(byte >> 3, header_offset)?;
        let redundant_copy = byte & 0x04 != 0;
        let trimming_status_flag = byte & 0x02 != 0;
        let extension_flag = byte & 0x01 != 0;

        let obu_size = reader.read_leb128()? as usize;
        let mut body = ByteReader::new(reader.read_bytes(obu_size)?);

        let (trim_end, trim_start) = if trimming_status_flag {
            let end = body.read_leb128()?;
            let start = body.read_leb128()?;
            (end, start)
        } else {
            (0, 0)
        };
        let extension_header_size = if extension_flag {
            let size = body.read_leb128()?;
            // Extension bytes are skipped, not interpreted (forward compat).
            if body.read_bytes(size as usize).is_err() {
                return Err(Error::InvalidObuSize { offset: header_offset });
            }
            size
        } else {
            0
        };

        let payload = body.rest();
        Ok(Obu {
            header: ObuHeader {
                obu_type,
                redundant_copy,
                num_samples_to_trim_at_end: trim_end,
                num_samples_to_trim_at_start: trim_start,
                extension_header_size,
            },
            payload,
        })
    }
}

/// Iterator over the OBUs of a standalone IA sequence. Yields an error once
/// and then terminates if the stream is malformed.
pub struct ObuIter<'a> {
    reader: ByteReader<'a>,
    failed: bool,
}

/// State of an OBU walk: the input, the read position, and whether an
/// error has been yielded.
pub struct IterState {
    pub input: Seq<u8>,
    pub cursor: int,
    pub failed: bool,
}

/// One step of the walk: nothing once failed or at the end; otherwise the
/// OBU at the cursor (or its error, after which the walk is failed).
pub open spec fn spec_iter_step(st: IterState) -> (Option<SpecResult<SpecObu>>, IterState) {
    if st.failed || st.cursor >= st.input.len() {
        (None, st)
    } else {
        let r = spec_parse_obu(st.input, st.cursor);
        match r {
            Ok((_, p)) => (Some(r), IterState { cursor: p, ..st }),
            Err(_) => (Some(r), IterState { failed: true, ..st }),
        }
    }
}

impl<'a> ObuIter<'a> {
    pub closed spec fn state(&self) -> IterState {
        IterState { input: self.reader.input(), cursor: self.reader.cursor(), failed: self.failed }
    }

    pub fn new(data: &'a [u8]) -> (it: Self)
        ensures
            it.state() == (IterState { input: data@, cursor: 0, failed: false }),
    {
        Self { reader: ByteReader::new(data), failed: false }
    }

    /// The next OBU, its parse error (once), or `None` at the end.
    pub fn next(&mut self) -> (item: Option<Result<Obu<'a>, Error>>)
        ensures
            ({
                let (spec_item, next) = spec_iter_step(old(self).state());
                &&& final(self).state().input == next.input
                &&& final(self).state().failed == next.failed
                &&& match (item, spec_item) {
                    (None, None) => final(self).state() == next,
                    (Some(r), Some(sr)) => agrees(view_res(r), final(self).state().cursor, sr)
                        && (r is Ok ==> final(self).state() == next),
                    _ => false,
                }
            }),
    {
        if self.failed || self.reader.is_empty() {
            return None;
        }
        let result = Obu::parse(&mut self.reader);
        if result.is_err() {
            self.failed = true;
        }
        Some(result)
    }
}

/// An OBU walk that has yielded an error yields nothing more.
pub proof fn lemma_iter_stops_after_error(st: IterState)
    requires
        spec_iter_step(st).0 matches Some(Err(_)),
    ensures
        spec_iter_step(spec_iter_step(st).1).0 is None,
{
}

/// Parsing an OBU consumes at least its header byte and never reads past
/// the input.
pub proof fn lemma_parse_obu_advances(s: Seq<u8>, pos: int)
    ensures
        spec_parse_obu(s, pos) matches Ok((_, p)) ==> pos < p <= s.len(),
{
    if 0 <= pos < s.len() {
        let p1 = pos + 1;
        crate::leb128::lemma_decode_consumed(s.subrange(p1, s.len() as int), p1 as usize);
    }
}

proof fn lemma_read_leb128_within(s: Seq<u8>, pos: int)
    requires
        0 <= pos <= s.len(),
    ensures
        spec_read_leb128(s, pos) matches Ok((_, p)) ==> pos < p <= s.len(),
{
    crate::leb128::lemma_decode_consumed(s.subrange(pos, s.len() as int), pos as usize);
}

/// An OBU parsed at `pos` leaves the reader at the next OBU: right after
/// its header byte, its leb128 `obu_size` and that many bytes. Its payload
/// is the tail of those bytes, and its redundant-copy flag is bit 2 of the
/// header byte.
pub proof fn lemma_parse_obu_at_next(s: Seq<u8>, pos: int)
    ensures
        spec_parse_obu(s, pos) matches Ok((o, p)) ==> {
            &&& spec_read_leb128(s, pos + 1) matches Ok((size, q))
            &&& p == q + size
            &&& p <= s.len()
            &&& o.payload.len() <= size
            &&& o.payload == s.subrange(p - o.payload.len(), p)
            &&& o.header.redundant_copy == (s[pos] & 0x04 != 0)
        },
{
    if spec_parse_obu(s, pos) is Ok {
        let byte = s[pos];
        let p1 = pos + 1;
        lemma_read_leb128_within(s, p1);
        let (size, p2) = spec_read_leb128(s, p1)->Ok_0;
        let body = s.subrange(p2, p2 + size);
        let trimming = byte & 0x02 != 0;
        let extension = byte & 0x01 != 0;
        lemma_read_leb128_within(body, 0);
        if trimming {
            let q0 = spec_read_leb128(body, 0)->Ok_0.1;
            lemma_read_leb128_within(body, q0);
        }
        let pt: int = if trimming {
            spec_read_leb128(body, spec_read_leb128(body, 0)->Ok_0.1)->Ok_0.1
        } else {
            0
        };
        if extension {
            lemma_read_leb128_within(body, pt);
        }
        let o = spec_parse_obu(s, pos)->Ok_0.0;
        assert(o.payload =~= s.subrange(p2 + size - o.payload.len(), p2 + size));
    }
}

proof fn lemma_read_leb128_extension(s: Seq<u8>, t: Seq<u8>, pos: int)
    requires
        0 <= pos <= s.len(),
    ensures
        !(spec_read_leb128(s, pos) is Err && spec_read_leb128(s, pos)->Err_0 is UnexpectedEof) ==> spec_read_leb128(
            s + t,
            pos,
        ) == spec_read_leb128(s, pos),
{
    let rest = s.subrange(pos, s.len() as int);
    assert((s + t).subrange(pos, (s + t).len() as int) =~= rest + t);
    crate::leb128::lemma_decode_extension(rest, t, pos as usize);
}

/// An OBU is decided by the bytes already there: unless parsing ran out
/// of input, appending bytes changes neither the OBU nor the error.
pub proof fn lemma_parse_obu_extension(s: Seq<u8>, t: Seq<u8>, pos: int)
    requires
        0 <= pos,
    ensures
        !(spec_parse_obu(s, pos) is Err && spec_parse_obu(s, pos)->Err_0 is UnexpectedEof) ==> spec_parse_obu(
            s + t,
            pos,
        ) == spec_parse_obu(s, pos),
{
    if pos < s.len() {
        assert((s + t)[pos] == s[pos]);
        let byte = s[pos];
        let p1 = pos + 1;
        lemma_read_leb128_extension(s, t, p1);
        match spec_read_leb128(s, p1) {
            Ok((size, p2)) => {
                crate::leb128::lemma_decode_consumed(s.subrange(p1, s.len() as int), p1 as usize);
                if p2 + size <= s.len() {
                    assert((s + t).subrange(p2, p2 + size) =~= s.subrange(p2, p2 + size));
                }
            },
            Err(_) => {},
        }
    }
}

} // verus!
