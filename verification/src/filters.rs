//! The SH-HRIR filter files of the binaural renderer: 16-bit PCM RIFF WAV
//! files, one per ear and ambisonic order, read into one plane of samples
//! per channel.

use vstd::prelude::*;

use crate::decode_error::DecodeError;

verus! {

/// Little-endian 16-bit value at `i`.
pub open spec fn le16(d: Seq<u8>, i: int) -> int {
    d[i] + 256 * d[i + 1]
}

/// Little-endian 32-bit value at `i`.
pub open spec fn le32(d: Seq<u8>, i: int) -> int {
    d[i] + 0x100 * d[i + 1] + 0x1_0000 * d[i + 2] + 0x100_0000 * d[i + 3]
}

/// The signed 16-bit sample stored little-endian at `i`.
pub open spec fn sample16(d: Seq<u8>, i: int) -> i16 {
    let u = le16(d, i);
    if u >= 32768 {
        (u - 65536) as i16
    } else {
        u as i16
    }
}

/// The four bytes at `i` are the chunk id `a b c e`.
pub open spec fn chunk_id_is(d: Seq<u8>, i: int, a: u8, b: u8, c: u8, e: u8) -> bool {
    d[i] == a && d[i + 1] == b && d[i + 2] == c && d[i + 3] == e
}

/// Channel `c` of interleaved 16-bit samples in `body` with `channels`
/// channels: whole frames only, a trailing odd byte or partial frame is
/// dropped.
pub open spec fn plane(body: Seq<u8>, channels: int, c: int) -> Seq<i16> {
    Seq::new(((body.len() as int / 2) / channels) as nat, |t: int| sample16(body, 2 * (t * channels + c)))
}

/// All channels of `body`, as `plane` gives each.
pub open spec fn planes(body: Seq<u8>, channels: int) -> Seq<Seq<i16>> {
    Seq::new(channels as nat, |c: int| plane(body, channels, c))
}

/// Walks the chunks from `pos`, with `channels` from the last format chunk
/// seen (0 before any). `Ok` holds the planes of the first data chunk;
/// `Err(true)` a format chunk too short to hold its fields; `Err(false)`
/// a malformed file: a chunk running past the end, a format other than
/// 16-bit PCM, data before any channel count, or no data chunk.
pub open spec fn spec_walk(data: Seq<u8>, pos: int, channels: int) -> Result<Seq<Seq<i16>>, bool>
    decreases data.len() + 1 - pos,
{
    if pos < 0 || pos + 8 > data.len() {
        Err(false)
    } else {
        let size = le32(data, pos + 4);
        if pos + 8 + size > data.len() {
            Err(false)
        } else {
            let body = data.subrange(pos + 8, pos + 8 + size);
            let next = pos + 8 + size + size % 2;
            if chunk_id_is(data, pos, 0x66, 0x6d, 0x74, 0x20) {
                if size < 16 {
                    Err(true)
                } else if le16(body, 0) != 1 || le16(body, 14) != 16 {
                    Err(false)
                } else {
                    spec_walk(data, next, le16(body, 2))
                }
            } else if chunk_id_is(data, pos, 0x64, 0x61, 0x74, 0x61) {
                if channels == 0 {
                    Err(false)
                } else {
                    Ok(planes(body, channels))
                }
            } else {
                spec_walk(data, next, channels)
            }
        }
    }
}

/// A WAV file read into planes: `RIFF`, a size, `WAVE`, then the chunks.
pub open spec fn spec_parse_wav(data: Seq<u8>) -> Result<Seq<Seq<i16>>, bool> {
    if data.len() < 12 || !chunk_id_is(data, 0, 0x52, 0x49, 0x46, 0x46) || !chunk_id_is(
        data,
        8,
        0x57,
        0x41,
        0x56,
        0x45,
    ) {
        Err(false)
    } else {
        spec_walk(data, 12, 0)
    }
}

/// The chunk walk reaches a format chunk too short to hold its fields.
pub open spec fn has_short_format_chunk(data: Seq<u8>) -> bool {
    spec_parse_wav(data) == Err::<Seq<Seq<i16>>, bool>(true)
}

fn read_le16(data: &[u8], i: usize) -> (v: u16)
    requires
        i + 1 < data@.len(),
    ensures
        v == le16(data@, i as int),
{
    data[i] as u16 + 256 * data[i + 1] as u16
}

fn read_le32(data: &[u8], i: usize) -> (v: u32)
    requires
        i + 3 < data@.len(),
    ensures
        v == le32(data@, i as int),
{
    data[i] as u32 + 0x100 * data[i + 1] as u32 + 0x1_0000 * data[i + 2] as u32 + 0x100_0000
        * data[i + 3] as u32
}

fn read_sample(data: &[u8], i: usize) -> (s: i16)
    requires
        i + 1 < data@.len(),
    ensures
        s == sample16(data@, i as int),
{
    let u: i32 = read_le16(data, i) as i32;
    if u >= 32768 {
        (u - 65536) as i16
    } else {
        u as i16
    }
}

proof fn lemma_frame_index(t: int, c: int, channels: int, n: int)
    requires
        0 <= t < n / channels,
        0 <= c < channels,
        0 <= n,
    ensures
        t * channels + c < n,
{
    vstd::arithmetic::div_mod::lemma_fundamental_div_mod(n, channels);
    let q = n / channels;
    assert(t * channels + c < n) by (nonlinear_arith)
        requires
            0 <= t,
            t + 1 <= q,
            0 <= c < channels,
            n == channels * q + n % channels,
            0 <= n % channels,
    ;
}

/// De-interleaves the 16-bit samples of `data[start..end]`.
fn read_planes(data: &[u8], start: usize, end: usize, channels: usize) -> (p: Vec<Vec<i16>>)
    requires
        start <= end <= data@.len(),
        channels > 0,
    ensures
        p@.len() == channels,
        forall|c: int| 0 <= c < channels ==> #[trigger] p@[c]@ == plane(data@.subrange(start as int, end as int), channels as int, c),
{
    let ghost body = data@.subrange(start as int, end as int);
    let n: usize = (end - start) / 2;
    let frames: usize = n / channels;
    let mut out: Vec<Vec<i16>> = Vec::new();
    let mut c: usize = 0;
    while c < channels
        invariant
            c <= channels,
            channels > 0,
            start <= end <= data@.len(),
            body == data@.subrange(start as int, end as int),
            n == body.len() / 2,
            frames == n / channels,
            out@.len() == c,
            forall|k: int| 0 <= k < c ==> #[trigger] out@[k]@ == plane(body, channels as int, k),
        decreases channels - c,
    {
        let mut samples: Vec<i16> = Vec::new();
        let mut t: usize = 0;
        while t < frames
            invariant
                t <= frames,
                c < channels,
                start <= end <= data@.len(),
                body == data@.subrange(start as int, end as int),
                n == body.len() / 2,
                frames == n / channels,
                samples@.len() == t,
                forall|u: int| 0 <= u < t ==> #[trigger] samples@[u] == sample16(body, 2 * (u * channels + c)),
            decreases frames - t,
        {
            proof {
                lemma_frame_index(t as int, c as int, channels as int, n as int);
            }
            let k: usize = t * channels + c;
            let s = read_sample(data, start + 2 * k);
            assert(body[2 * k] == data@[start + 2 * k]);
            assert(body[2 * k + 1] == data@[start + 2 * k + 1]);
            samples.push(s);
            t = t + 1;
        }
        assert(samples@ =~= plane(body, channels as int, c as int));
        out.push(samples);
        c = c + 1;
    }
    out
}

fn bad_asset() -> (e: DecodeError)
    ensures
        e matches DecodeError::InvalidDescriptors(m) && m@ == "bad filter asset"@,
{
    DecodeError::InvalidDescriptors("bad filter asset".to_owned())
}

/// Whether reading `data` as a WAV file would meet a format chunk too
/// short to hold its fields (which `parse_wav` does not accept): a caller
/// tests this on bytes it did not write.
pub fn wav_has_short_format_chunk(data: &[u8]) -> (b: bool)
    ensures
        b == has_short_format_chunk(data@),
{
    if data.len() < 12 || data[0] != 0x52 || data[1] != 0x49 || data[2] != 0x46 || data[3] != 0x46
        || data[8] != 0x57 || data[9] != 0x41 || data[10] != 0x56 || data[11] != 0x45 {
        return false;
    }
    let mut pos: usize = 12;
    let mut channels: usize = 0;
    while pos <= data.len() && data.len() - pos >= 8
        invariant
            12 <= pos <= data@.len() + 1,
            channels <= 65535,
            spec_parse_wav(data@) == spec_walk(data@, pos as int, channels as int),
        decreases data@.len() + 1 - pos,
    {
        let size: usize = read_le32(data, pos + 4) as usize;
        if size > data.len() - pos - 8 {
            return false;
        }
        let start: usize = pos + 8;
        let end: usize = start + size;
        let ghost body = data@.subrange(start as int, end as int);
        if data[pos] == 0x66 && data[pos + 1] == 0x6d && data[pos + 2] == 0x74 && data[pos + 3] == 0x20 {
            if size < 16 {
                return true;
            }
            let format = read_le16(data, start);
            let bits = read_le16(data, start + 14);
            assert(le16(body, 0) == le16(data@, start as int));
            assert(le16(body, 14) == le16(data@, start + 14));
            if format != 1 || bits != 16 {
                return false;
            }
            channels = read_le16(data, start + 2) as usize;
            assert(le16(body, 2) == le16(data@, start + 2));
        } else if data[pos] == 0x64 && data[pos + 1] == 0x61 && data[pos + 2] == 0x74 && data[pos + 3]
            == 0x61 {
            return false;
        }
        if end == data.len() {
            assert(spec_walk(data@, (end + size % 2) as int, channels as int) == Err::<Seq<Seq<i16>>, bool>(false));
            return false;
        }
        pos = end + size % 2;
    }
    false
}

/// Reads a 16-bit PCM RIFF WAV into one plane of samples per channel.
/// A malformed file, or one in another format, is refused as a bad asset.
pub fn parse_wav(data: &[u8]) -> (r: Result<Vec<Vec<i16>>, DecodeError>)
    requires
        !has_short_format_chunk(data@),
    ensures
        match r {
            Ok(p) => spec_parse_wav(data@) matches Ok(s) && p@.len() == s.len() && forall|c: int|
                0 <= c < s.len() ==> #[trigger] p@[c]@ == s[c],
            Err(e) => spec_parse_wav(data@) == Err::<Seq<Seq<i16>>, bool>(false) && (e matches DecodeError::InvalidDescriptors(
                m,
            ) && m@ == "bad filter asset"@),
        },
{
    if data.len() < 12 || data[0] != 0x52 || data[1] != 0x49 || data[2] != 0x46 || data[3] != 0x46
        || data[8] != 0x57 || data[9] != 0x41 || data[10] != 0x56 || data[11] != 0x45 {
        return Err(bad_asset());
    }
    let mut pos: usize = 12;
    let mut channels: usize = 0;
    while pos <= data.len() && data.len() - pos >= 8
        invariant
            12 <= pos <= data@.len() + 1,
            channels <= 65535,
            spec_parse_wav(data@) == spec_walk(data@, pos as int, channels as int),
            spec_parse_wav(data@) != Err::<Seq<Seq<i16>>, bool>(true),
        decreases data@.len() + 1 - pos,
    {
        let size: usize = read_le32(data, pos + 4) as usize;
        if size > data.len() - pos - 8 {
            return Err(bad_asset());
        }
        let start: usize = pos + 8;
        let end: usize = start + size;
        let ghost body = data@.subrange(start as int, end as int);
        if data[pos] == 0x66 && data[pos + 1] == 0x6d && data[pos + 2] == 0x74 && data[pos + 3] == 0x20 {
            let format = read_le16(data, start);
            let bits = read_le16(data, start + 14);
            assert(le16(body, 0) == le16(data@, start as int));
            assert(le16(body, 14) == le16(data@, start + 14));
            if format != 1 || bits != 16 {
                return Err(bad_asset());
            }
            channels = read_le16(data, start + 2) as usize;
            assert(le16(body, 2) == le16(data@, start + 2));
        } else if data[pos] == 0x64 && data[pos + 1] == 0x61 && data[pos + 2] == 0x74 && data[pos + 3]
            == 0x61 {
            if channels == 0 {
                return Err(bad_asset());
            }
            let p = read_planes(data, start, end, channels);
            return Ok(p);
        }
        if end == data.len() {
            assert(spec_walk(data@, (end + size % 2) as int, channels as int) == Err::<Seq<Seq<i16>>, bool>(false));
            return Err(bad_asset());
        }
        pos = end + size % 2;
    }
    Err(bad_asset())
}

/// `parse_wav` on any bytes: `None` where the file holds a format chunk
/// too short to read, else what `parse_wav` gives.
pub fn parse_wav_checked(data: &[u8]) -> (r: Option<Result<Vec<Vec<i16>>, DecodeError>>)
    ensures
        match r {
            None => has_short_format_chunk(data@),
            Some(Ok(p)) => spec_parse_wav(data@) matches Ok(s) && p@.len() == s.len() && forall|c: int|
                0 <= c < s.len() ==> #[trigger] p@[c]@ == s[c],
            Some(Err(e)) => spec_parse_wav(data@) == Err::<Seq<Seq<i16>>, bool>(false) && (e matches DecodeError::InvalidDescriptors(
                m,
            ) && m@ == "bad filter asset"@),
        },
{
    if wav_has_short_format_chunk(data) {
        None
    } else {
        Some(parse_wav(data))
    }
}

/// Filters exist for ambisonic orders 1 to 4.
pub open spec fn has_filters(order: usize) -> bool {
    1 <= order <= 4
}

/// The left and right SH-HRIR planes for an ambisonic order, read from
/// the filter files `left` and `right` of that order: each must hold
/// `(order + 1)²` channels.
pub fn sh_hrirs(order: usize, left: &[u8], right: &[u8]) -> (r: Result<(Vec<Vec<i16>>, Vec<Vec<i16>>), DecodeError>)
    requires
        !has_short_format_chunk(left@),
        !has_short_format_chunk(right@),
    ensures
        !has_filters(order) ==> r == Err::<(Vec<Vec<i16>>, Vec<Vec<i16>>), DecodeError>(
            DecodeError::Unimplemented("no binaural filters for this order"),
        ),
        has_filters(order) ==> match r {
            Ok((l, rr)) => {
                &&& spec_parse_wav(left@) matches Ok(sl)
                &&& spec_parse_wav(right@) matches Ok(sr)
                &&& sl.len() == (order + 1) * (order + 1)
                &&& sr.len() == (order + 1) * (order + 1)
                &&& l@.len() == sl.len()
                &&& rr@.len() == sr.len()
                &&& forall|c: int| 0 <= c < sl.len() ==> #[trigger] l@[c]@ == sl[c]
                &&& forall|c: int| 0 <= c < sr.len() ==> #[trigger] rr@[c]@ == sr[c]
            },
            Err(e) => e matches DecodeError::InvalidDescriptors(m) && if spec_parse_wav(left@) is Err
                || spec_parse_wav(right@) is Err {
                m@ == "bad filter asset"@
            } else {
                m@ == "filter channel count mismatch"@ && (spec_parse_wav(left@)->Ok_0.len() != (order + 1) * (
                order + 1) || spec_parse_wav(right@)->Ok_0.len() != (order + 1) * (order + 1))
            },
        },
{
    if order < 1 || order > 4 {
        return Err(DecodeError::Unimplemented("no binaural filters for this order"));
    }
    let l = parse_wav(left)?;
    let rr = parse_wav(right)?;
    assert((order + 1) * (order + 1) <= 25) by (nonlinear_arith)
        requires
            order <= 4,
    ;
    let expected: usize = (order + 1) * (order + 1);
    if l.len() != expected || rr.len() != expected {
        return Err(DecodeError::InvalidDescriptors("filter channel count mismatch".to_owned()));
    }
    Ok((l, rr))
}

} // verus!
