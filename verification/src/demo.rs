//! Writing IAMF: leb128 values, OBUs, and the demo stream — a
//! third-order ambisonics scene authored as a standalone LPCM IA sequence
//! with a binaural-capable mix presentation.

use vstd::prelude::*;

use crate::leb128::spec_encode;

verus! {

pub const SAMPLE_RATE: u32 = 48000;

/// Samples per frame.
pub const FRAME: usize = 960;

/// Ambisonics channels of the demo scene (third order).
pub const CHANNELS: usize = 16;

/// Appends `value` as unsigned leb128: 7-bit groups, least significant
/// first, with the continuation bit on all but the last byte.
pub fn leb128(out: &mut Vec<u8>, value: u32)
    ensures
        final(out)@ == old(out)@ + spec_encode(value as nat),
{
    let mut rest = value;
    loop
        invariant
            out@ + spec_encode(rest as nat) == old(out)@ + spec_encode(value as nat),
        decreases rest,
    {
        let byte = (rest & 0x7f) as u8;
        assert(rest & 0x7f == rest % 128) by (bit_vector);
        assert(rest >> 7 == rest / 128) by (bit_vector);
        let ghost before = out@;
        let ghost v = rest;
        rest = rest >> 7;
        if rest == 0 {
            assert(v < 128);
            assert(byte == v as u8);
            out.push(byte);
            assert(spec_encode(v as nat) == seq![v as u8]);
            assert(out@ =~= before + spec_encode(v as nat));
            return;
        }
        out.push(byte | 0x80);
        assert(byte < 128);
        assert(byte | 0x80u8 == byte + 128) by (bit_vector)
            requires
                byte < 128u8,
        ;
        assert(spec_encode(v as nat) == seq![(v % 128 + 128) as u8] + spec_encode(rest as nat));
        assert(out@ + spec_encode(rest as nat) =~= before + spec_encode(v as nat));
    }
}

/// An OBU: header byte (type in the top 5 bits, no flags), leb128
/// `obu_size`, then the payload.
pub open spec fn spec_obu(obu_type: u8, payload: Seq<u8>) -> Seq<u8> {
    seq![(obu_type << 3u8) as u8] + spec_encode((payload.len() as u32) as nat) + payload
}

/// Appends an OBU of `obu_type` carrying `payload`.
pub fn obu(out: &mut Vec<u8>, obu_type: u8, payload: &[u8])
    ensures
        final(out)@ == old(out)@ + spec_obu(obu_type, payload@),
{
    out.push(obu_type << 3);
    leb128(out, payload.len() as u32);
    let ghost before = out@;
    out.extend_from_slice(payload);
    assert(out@ =~= before + payload@);
    assert(old(out)@ + spec_obu(obu_type, payload@) =~= before + payload@);
}

/// The payload of the demo's IA sequence header: `iamf`, simple profile
/// (0) as primary and additional profile.
pub open spec fn demo_sequence_header() -> Seq<u8> {
    seq![0x69u8, 0x61, 0x6d, 0x66, 0, 0]
}

/// The demo's codec config: id 1, `ipcm`, 960 samples per frame, no roll
/// distance, little-endian 16-bit samples at 48 kHz.
pub open spec fn demo_codec_config() -> Seq<u8> {
    seq![1u8, 0x69, 0x70, 0x63, 0x6d] + spec_encode(960) + seq![0u8, 0, 0x01, 16, 0x00, 0x00, 0xbb, 0x80]
}

/// The demo's audio element: id 1, scene-based, codec config 1, 16
/// substreams with ids 0..=15, no parameters, mono ambisonics mode with
/// 16 output channels, 16 substreams and the identity channel mapping.
pub open spec fn demo_audio_element() -> Seq<u8> {
    seq![1u8, 0x20, 1, 16] + Seq::new(16, |i: int| i as u8) + seq![0u8, 0, 16, 16] + Seq::new(16, |i: int| i as u8)
}

/// A mix gain parameter definition: id, rate 48 kHz, mode 1, 0 dB.
pub open spec fn demo_mix_gain(param_id: u8) -> Seq<u8> {
    seq![param_id] + spec_encode(48000) + seq![0x80u8, 0, 0]
}

/// Loudness info: type 0, integrated −24 dB, digital peak −2 dB (Q7.8).
pub open spec fn demo_loudness() -> Seq<u8> {
    seq![0u8, 0xe8, 0x00, 0xfe, 0x00]
}

/// The demo's mix presentation: id 1, no labels, one sub-mix of element 1
/// rendered binaurally on headphones, element and output mix gains 100
/// and 101, authored for stereo (sound system A) and binaural layouts.
pub open spec fn demo_mix_presentation() -> Seq<u8> {
    seq![1u8, 0, 1, 1, 1, 0x40, 0] + demo_mix_gain(100) + demo_mix_gain(101) + seq![2u8, 0x80] + demo_loudness()
        + seq![0xc0u8] + demo_loudness()
}

/// The demo's descriptor OBUs, in order: sequence header, codec config,
/// audio element, mix presentation.
pub open spec fn spec_demo_descriptors() -> Seq<u8> {
    spec_obu(31, demo_sequence_header()) + spec_obu(0, demo_codec_config()) + spec_obu(1, demo_audio_element())
        + spec_obu(2, demo_mix_presentation())
}

fn push_all(p: &mut Vec<u8>, bytes: &[u8])
    ensures
        final(p)@ == old(p)@ + bytes@,
{
    p.extend_from_slice(bytes);
    assert(p@ =~= old(p)@ + bytes@);
}

fn mix_gain(p: &mut Vec<u8>, param_id: u32)
    requires
        param_id < 128,
    ensures
        final(p)@ == old(p)@ + demo_mix_gain(param_id as u8),
{
    leb128(p, param_id);
    leb128(p, SAMPLE_RATE);  // parameter_rate
    p.push(0x80);  // param_definition_mode = 1
    push_all(p, &[0, 0]);  // default_mix_gain (Q7.8)
    proof {
        assert(spec_encode(param_id as nat) == seq![param_id as u8]);
        assert(p@ =~= old(p)@ + demo_mix_gain(param_id as u8));
    }
}

fn loudness(p: &mut Vec<u8>)
    ensures
        final(p)@ == old(p)@ + demo_loudness(),
{
    push_all(p, &[0, 0xe8, 0x00, 0xfe, 0x00]);
    assert([0u8, 0xe8, 0x00, 0xfe, 0x00]@ =~= demo_loudness());
}

/// The demo's descriptor OBUs.
pub fn descriptors() -> (stream: Vec<u8>)
    ensures
        stream@ == spec_demo_descriptors(),
{
    let mut stream: Vec<u8> = Vec::new();

    // IA sequence header: simple profile.
    let mut p: Vec<u8> = Vec::new();
    push_all(&mut p, &[0x69, 0x61, 0x6d, 0x66, 0, 0]);
    assert(p@ =~= demo_sequence_header());
    obu(&mut stream, 31, &p);

    // Codec config: LPCM s16le at 48 kHz.
    let mut p: Vec<u8> = Vec::new();
    leb128(&mut p, 1);  // codec_config_id
    push_all(&mut p, &[0x69, 0x70, 0x63, 0x6d]);
    leb128(&mut p, FRAME as u32);
    push_all(&mut p, &[0, 0, 0x01, 16, 0x00, 0x00, 0xbb, 0x80]);
    assert(p@ =~= demo_codec_config());
    obu(&mut stream, 0, &p);

    // Audio element: scene-based, ambisonics mono mode, identity mapping.
    let mut p: Vec<u8> = Vec::new();
    push_all(&mut p, &[1, 0x20, 1, 16]);
    let mut id: u8 = 0;
    while id < 16
        invariant
            id <= 16,
            p@ == seq![1u8, 0x20, 1, 16] + Seq::new(id as nat, |i: int| i as u8),
        decreases 16 - id,
    {
        leb128(&mut p, id as u32);
        assert(spec_encode(id as nat) == seq![id]);
        assert(p@ =~= seq![1u8, 0x20, 1, 16] + Seq::new((id + 1) as nat, |i: int| i as u8));
        id = id + 1;
    }
    push_all(&mut p, &[0, 0, 16, 16]);
    let ghost prefix = p@;
    let mut ch: u8 = 0;
    while ch < 16
        invariant
            ch <= 16,
            p@ == prefix + Seq::new(ch as nat, |i: int| i as u8),
        decreases 16 - ch,
    {
        p.push(ch);
        assert(p@ =~= prefix + Seq::new((ch + 1) as nat, |i: int| i as u8));
        ch = ch + 1;
    }
    assert(p@ =~= demo_audio_element());
    obu(&mut stream, 1, &p);

    // Mix presentation: one sub-mix, headphones_rendering_mode = binaural,
    // authored for stereo and binaural layouts.
    let mut p: Vec<u8> = Vec::new();
    push_all(&mut p, &[1, 0, 1, 1, 1, 0x40, 0]);
    mix_gain(&mut p, 100);  // element_mix_gain
    mix_gain(&mut p, 101);  // output_mix_gain
    push_all(&mut p, &[2, 0x80]);  // num_layouts, then stereo (sound system A)
    loudness(&mut p);
    p.push(0xc0);  // binaural
    loudness(&mut p);
    assert(p@ =~= demo_mix_presentation());
    obu(&mut stream, 2, &p);

    assert(stream@ =~= spec_demo_descriptors());
    stream
}

/// A sample's little-endian bytes.
pub open spec fn le16(x: i16) -> Seq<u8> {
    seq![((x as u16) % 256) as u8, ((x as u16) / 256) as u8]
}

/// Sample `i` of a plane, silence past its end.
pub open spec fn sample_at(plane: Seq<i16>, i: int) -> i16 {
    if 0 <= i < plane.len() {
        plane[i]
    } else {
        0
    }
}

/// The first `n` samples of the frame of `plane` starting at `start`, as
/// little-endian bytes.
pub open spec fn frame_bytes(plane: Seq<i16>, start: int, n: nat) -> Seq<u8>
    decreases n,
{
    if n == 0 {
        Seq::empty()
    } else {
        frame_bytes(plane, start, (n - 1) as nat) + le16(sample_at(plane, start + n - 1))
    }
}

/// The audio frame OBUs of the first `n` substreams for the frame at
/// `start`: substream `s` is OBU type `6 + s`.
pub open spec fn unit_obus(planes: Seq<Seq<i16>>, start: int, n: nat) -> Seq<u8>
    decreases n,
{
    if n == 0 {
        Seq::empty()
    } else {
        unit_obus(planes, start, (n - 1) as nat) + spec_obu(
            (6 + (n - 1)) as u8,
            frame_bytes(planes[n - 1], start, FRAME as nat),
        )
    }
}

/// The temporal units of the first `f` frames.
pub open spec fn all_units(planes: Seq<Seq<i16>>, f: nat) -> Seq<u8>
    decreases f,
{
    if f == 0 {
        Seq::empty()
    } else {
        all_units(planes, (f - 1) as nat) + unit_obus(planes, (f - 1) * FRAME, planes.len())
    }
}

/// Frames needed to cover `total` samples.
pub open spec fn frame_count(total: nat) -> nat {
    (total + FRAME - 1) as nat / FRAME as nat
}

fn frame_payload(plane: &Vec<i16>, start: usize, payload: &mut Vec<u8>)
    requires
        start + FRAME <= usize::MAX,
    ensures
        final(payload)@ == frame_bytes(plane@, start as int, FRAME as nat),
{
    payload.clear();
    let mut i: usize = 0;
    while i < FRAME
        invariant
            i <= FRAME,
            start + FRAME <= usize::MAX,
            payload@ == frame_bytes(plane@, start as int, i as nat),
        decreases FRAME - i,
    {
        let x: i16 = if start + i < plane.len() {
            plane[start + i]
        } else {
            0
        };
        let u = x as u16;
        payload.push((u % 256) as u8);
        payload.push((u / 256) as u8);
        assert(payload@ =~= frame_bytes(plane@, start as int, (i + 1) as nat));
        i = i + 1;
    }
}

/// The complete standalone IA sequence of the demo: the descriptors, then
/// one temporal unit per frame of 960 samples (the last padded with
/// silence), each holding one LPCM audio frame per ambisonics plane.
pub fn generate(planes: &[Vec<i16>]) -> (stream: Vec<u8>)
    requires
        1 <= planes@.len() <= 250,
        planes@[0]@.len() + FRAME <= usize::MAX,
    ensures
        stream@ == spec_demo_descriptors() + all_units(
            planes@.map_values(|p: Vec<i16>| p@),
            frame_count(planes@[0]@.len()),
        ),
{
    let ghost ps = planes@.map_values(|p: Vec<i16>| p@);
    let total = planes[0].len();
    let mut stream = descriptors();
    let mut payload: Vec<u8> = Vec::new();
    let mut frame_start: usize = 0;
    let ghost mut f: nat = 0;
    while frame_start < total
        invariant
            ps == planes@.map_values(|p: Vec<i16>| p@),
            1 <= planes@.len() <= 250,
            total + FRAME <= usize::MAX,
            frame_start == f * FRAME,
            f == 0 || (f - 1) * FRAME < total,
            stream@ == spec_demo_descriptors() + all_units(ps, f),
        decreases total + FRAME - frame_start,
    {
        let ghost before = stream@;
        let mut substream: usize = 0;
        while substream < planes.len()
            invariant
                ps == planes@.map_values(|p: Vec<i16>| p@),
                planes@.len() <= 250,
                substream <= planes@.len(),
                frame_start < total,
                total + FRAME <= usize::MAX,
                stream@ == before + unit_obus(ps, frame_start as int, substream as nat),
            decreases planes.len() - substream,
        {
            frame_payload(&planes[substream], frame_start, &mut payload);
            assert(ps[substream as int] == planes@[substream as int]@);
            obu(&mut stream, 6 + substream as u8, &payload);
            assert(stream@ =~= before + unit_obus(ps, frame_start as int, (substream + 1) as nat));
            substream = substream + 1;
        }
        proof {
            assert(stream@ =~= spec_demo_descriptors() + all_units(ps, f + 1));
            f = f + 1;
        }
        frame_start = frame_start + FRAME;
    }
    proof {
        assert(f == frame_count(total as nat)) by (nonlinear_arith)
            requires
                frame_start == f * FRAME,
                frame_start >= total,
                f == 0 || (f - 1) * FRAME < total,
                FRAME == 960,
        ;
    }
    stream
}

} // verus!
