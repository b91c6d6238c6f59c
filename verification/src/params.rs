//! Parameter block OBU parsing and parameter timelines.
//!
//! Parameter blocks are context-dependent: their syntax hinges on the
//! parameter definition (from an audio element or mix presentation) that
//! declared the parameter ID.

use vstd::prelude::*;
use std::collections::VecDeque;

use crate::descriptors::{ChannelAudioLayer, ParamDefinition, SpecParamDefinition};
use crate::error::Error;
use crate::reader::{
    agrees, eof, lemma_list_err_extends, spec_list, spec_read_i16_be, spec_read_leb128, spec_read_u8,
    views, ByteReader, SpecResult,
};

verus! {

/// What kind of parameter a block's ID resolves to, plus the context needed
/// to parse its payload.
#[non_exhaustive]
pub enum ParamContext<'a> {
    MixGain,
    Demixing,
    /// Channel layers of the owning element; recon gain data exists only
    /// for layers with `recon_gain_is_present`.
    ReconGain(&'a [ChannelAudioLayer]),
}

/// A parameter context as values.
pub enum SpecParamContext {
    MixGain,
    Demixing,
    ReconGain(Seq<ChannelAudioLayer>),
}

impl<'a> View for ParamContext<'a> {
    type V = SpecParamContext;

    open spec fn view(&self) -> SpecParamContext {
        match self {
            ParamContext::MixGain => SpecParamContext::MixGain,
            ParamContext::Demixing => SpecParamContext::Demixing,
            ParamContext::ReconGain(layers) => SpecParamContext::ReconGain(layers@),
        }
    }
}

/// Animated mix gain over one subblock. Values are Q7.8 dB.
#[derive(Debug, Clone, Copy, PartialEq, Eq)]
#[non_exhaustive]
pub enum MixGainAnimation {
    Step { start: i16 },
    Linear { start: i16, end: i16 },
    Bezier { start: i16, end: i16, control: i16, control_relative_time: u8 },
}

/// Per-layer recon gain: `(recon_gain_flags, gains)`, one gain byte per set
/// flag bit, in ascending bit order. `None` for layers without recon gain.
pub type ReconGainLayers = Vec<Option<(u32, Vec<u8>)>>;

/// Recon gains as values.
pub type SpecReconGainLayers = Seq<Option<(u32, Seq<u8>)>>;

pub open spec fn recon_view(l: ReconGainLayers) -> SpecReconGainLayers {
    l@.map_values(
        |x: Option<(u32, Vec<u8>)>|
            match x {
                Some((f, g)) => Some((f, g@)),
                None => None,
            },
    )
}

#[derive(Debug, Clone, PartialEq, Eq)]
#[non_exhaustive]
pub enum SubblockData {
    MixGain(MixGainAnimation),
    Demixing { dmixp_mode: u8 },
    ReconGain(ReconGainLayers),
}

/// Subblock data as values.
pub enum SpecSubblockData {
    MixGain(MixGainAnimation),
    Demixing { dmixp_mode: u8 },
    ReconGain(SpecReconGainLayers),
}

impl View for SubblockData {
    type V = SpecSubblockData;

    open spec fn view(&self) -> SpecSubblockData {
        match self {
            SubblockData::MixGain(a) => SpecSubblockData::MixGain(*a),
            SubblockData::Demixing { dmixp_mode } => SpecSubblockData::Demixing { dmixp_mode: *dmixp_mode },
            SubblockData::ReconGain(l) => SpecSubblockData::ReconGain(recon_view(*l)),
        }
    }
}

#[derive(Debug, Clone, PartialEq, Eq)]
pub struct ParameterSubblock {
    pub duration: u32,
    pub data: SubblockData,
}

/// A subblock as values.
pub struct SpecParameterSubblock {
    pub duration: u32,
    pub data: SpecSubblockData,
}

impl View for ParameterSubblock {
    type V = SpecParameterSubblock;

    open spec fn view(&self) -> SpecParameterSubblock {
        SpecParameterSubblock { duration: self.duration, data: self.data@ }
    }
}

#[derive(Debug, Clone, PartialEq, Eq)]
pub struct ParameterBlock {
    pub parameter_id: u32,
    pub duration: u32,
    pub constant_subblock_duration: u32,
    pub subblocks: Vec<ParameterSubblock>,
}

/// A parameter block as values.
pub struct SpecParameterBlock {
    pub parameter_id: u32,
    pub duration: u32,
    pub constant_subblock_duration: u32,
    pub subblocks: Seq<SpecParameterSubblock>,
}

impl View for ParameterBlock {
    type V = SpecParameterBlock;

    open spec fn view(&self) -> SpecParameterBlock {
        SpecParameterBlock {
            parameter_id: self.parameter_id,
            duration: self.duration,
            constant_subblock_duration: self.constant_subblock_duration,
            subblocks: views(self.subblocks@),
        }
    }
}

pub const ANIMATION_STEP: u32 = 0;
pub const ANIMATION_LINEAR: u32 = 1;
pub const ANIMATION_BEZIER: u32 = 2;

/// animation_type (leb128), then the start point (step), start and end
/// (linear), or start, end, control point and its relative time (bezier),
/// as i16 Q7.8 dB; other types are invalid.
pub open spec fn spec_mix_gain(s: Seq<u8>, pos: int) -> SpecResult<MixGainAnimation> {
    match spec_read_leb128(s, pos) {
        Err(e) => Err(e),
        Ok((t, p1)) => if t == ANIMATION_STEP {
            match spec_read_i16_be(s, p1) {
                Err(e) => Err(e),
                Ok((start, p2)) => Ok((MixGainAnimation::Step { start }, p2)),
            }
        } else if t == ANIMATION_LINEAR {
            match spec_read_i16_be(s, p1) {
                Err(e) => Err(e),
                Ok((start, p2)) => match spec_read_i16_be(s, p2) {
                    Err(e) => Err(e),
                    Ok((end, p3)) => Ok((MixGainAnimation::Linear { start, end }, p3)),
                },
            }
        } else if t == ANIMATION_BEZIER {
            match spec_read_i16_be(s, p1) {
                Err(e) => Err(e),
                Ok((start, p2)) => match spec_read_i16_be(s, p2) {
                    Err(e) => Err(e),
                    Ok((end, p3)) => match spec_read_i16_be(s, p3) {
                        Err(e) => Err(e),
                        Ok((control, p4)) => match spec_read_u8(s, p4) {
                            Err(e) => Err(e),
                            Ok((crt, p5)) => Ok(
                                (
                                    MixGainAnimation::Bezier { start, end, control, control_relative_time: crt },
                                    p5,
                                ),
                            ),
                        },
                    },
                },
            }
        } else {
            Err(Error::InvalidDescriptor { offset: p1 as usize })
        },
    }
}

/// The two big-endian bytes of a 16-bit two's-complement value.
pub open spec fn i16_bytes(v: i16) -> Seq<u8> {
    let u: int = if v < 0 {
        v + 65536
    } else {
        v as int
    };
    seq![(u / 256) as u8, (u % 256) as u8]
}

/// How a mix-gain animation is written: its animation_type (0 step, 1
/// linear, 2 bezier; a one-byte leb128), then start, end and control as
/// big-endian i16 in that order, as far as the type has them, then the
/// bezier's control_relative_time byte.
pub open spec fn mix_gain_bytes(a: MixGainAnimation) -> Seq<u8> {
    match a {
        MixGainAnimation::Step { start } => seq![0u8] + i16_bytes(start),
        MixGainAnimation::Linear { start, end } => seq![1u8] + i16_bytes(start) + i16_bytes(end),
        MixGainAnimation::Bezier { start, end, control, control_relative_time } => seq![2u8] + i16_bytes(start)
            + i16_bytes(end) + i16_bytes(control) + seq![control_relative_time],
    }
}

proof fn lemma_i16_bytes_read(s: Seq<u8>, pos: int, v: i16)
    requires
        0 <= pos,
        pos + 2 <= s.len(),
        s.subrange(pos, pos + 2) == i16_bytes(v),
    ensures
        spec_read_i16_be(s, pos) == Ok::<(i16, int), Error>((v, pos + 2)),
{
    let b = s.subrange(pos, pos + 2);
    assert(b[0] == i16_bytes(v)[0]);
    assert(b[1] == i16_bytes(v)[1]);
}

proof fn lemma_small_leb128(s: Seq<u8>, pos: int)
    requires
        0 <= pos < s.len(),
        s[pos] < 128,
    ensures
        spec_read_leb128(s, pos) == Ok::<(u32, int), Error>((s[pos] as u32, pos + 1)),
{
    let d = s.subrange(pos, s.len() as int);
    assert(d[0] == s[pos]);
    assert(crate::leb128::pow128(0) == 1) by {
        reveal_with_fuel(crate::leb128::pow128, 1);
    }
}

/// Writing a mix-gain animation and reading it back gives the same
/// animation, whatever follows it.
pub proof fn lemma_mix_gain_roundtrip(a: MixGainAnimation, rest: Seq<u8>)
    ensures
        spec_mix_gain(mix_gain_bytes(a) + rest, 0) == Ok::<(MixGainAnimation, int), Error>(
            (a, mix_gain_bytes(a).len() as int),
        ),
{
    let b = mix_gain_bytes(a);
    let s = b + rest;
    assert(s[0] == b[0]);
    lemma_small_leb128(s, 0);
    match a {
        MixGainAnimation::Step { start } => {
            assert(s.subrange(1, 3) =~= i16_bytes(start));
            lemma_i16_bytes_read(s, 1, start);
        },
        MixGainAnimation::Linear { start, end } => {
            assert(s.subrange(1, 3) =~= i16_bytes(start));
            assert(s.subrange(3, 5) =~= i16_bytes(end));
            lemma_i16_bytes_read(s, 1, start);
            lemma_i16_bytes_read(s, 3, end);
        },
        MixGainAnimation::Bezier { start, end, control, control_relative_time } => {
            assert(s.subrange(1, 3) =~= i16_bytes(start));
            assert(s.subrange(3, 5) =~= i16_bytes(end));
            assert(s.subrange(5, 7) =~= i16_bytes(control));
            assert(s[7] == control_relative_time);
            lemma_i16_bytes_read(s, 1, start);
            lemma_i16_bytes_read(s, 3, end);
            lemma_i16_bytes_read(s, 5, control);
        },
    }
}

fn parse_mix_gain(r: &mut ByteReader<'_>) -> (res: Result<MixGainAnimation, Error>)
    ensures
        final(r).input() == old(r).input(),
        final(r).cursor() <= final(r).input().len(),
        agrees(res, final(r).cursor(), spec_mix_gain(old(r).input(), old(r).cursor())),
{
    let t = r.read_leb128()?;
    if t == ANIMATION_STEP {
        Ok(MixGainAnimation::Step { start: r.read_i16_be()? })
    } else if t == ANIMATION_LINEAR {
        let start = r.read_i16_be()?;
        let end = r.read_i16_be()?;
        Ok(MixGainAnimation::Linear { start, end })
    } else if t == ANIMATION_BEZIER {
        let start = r.read_i16_be()?;
        let end = r.read_i16_be()?;
        let control = r.read_i16_be()?;
        let control_relative_time = r.read_u8()?;
        Ok(MixGainAnimation::Bezier { start, end, control, control_relative_time })
    } else {
        Err(Error::InvalidDescriptor { offset: r.position() })
    }
}

/// Number of set bits among bits `0..k` of `flags`.
pub open spec fn count_bits(flags: u32, k: nat) -> nat
    decreases k,
{
    if k == 0 {
        0
    } else {
        count_bits(flags, (k - 1) as nat) + if flags & (1u32 << ((k - 1) as u32)) != 0 {
            1nat
        } else {
            0nat
        }
    }
}

pub open spec fn u8_item() -> spec_fn(Seq<u8>, int) -> SpecResult<u8> {
    |s: Seq<u8>, p: int| spec_read_u8(s, p)
}

/// One layer's recon gain: nothing without recon gain, else the flags
/// (leb128) and one gain byte per set flag bit.
pub open spec fn spec_recon_layer(s: Seq<u8>, pos: int, layer: ChannelAudioLayer) -> SpecResult<Option<(u32, Seq<u8>)>> {
    if !layer.recon_gain_is_present {
        Ok((None, pos))
    } else {
        match spec_read_leb128(s, pos) {
            Err(e) => Err(e),
            Ok((flags, p)) => match spec_list(s, p, count_bits(flags, 32), u8_item()) {
                Err(e) => Err(e),
                Ok((gains, q)) => Ok((Some((flags, gains)), q)),
            },
        }
    }
}

/// Recon gains of the first `n` layers.
pub open spec fn spec_recon_layers(s: Seq<u8>, pos: int, layers: Seq<ChannelAudioLayer>, n: nat) -> SpecResult<
    SpecReconGainLayers,
>
    decreases n,
{
    if n == 0 {
        Ok((Seq::empty(), pos))
    } else {
        match spec_recon_layers(s, pos, layers, (n - 1) as nat) {
            Err(e) => Err(e),
            Ok((xs, p)) => match spec_recon_layer(s, p, layers[n - 1]) {
                Err(e) => Err(e),
                Ok((x, q)) => Ok((xs.push(x), q)),
            },
        }
    }
}

proof fn lemma_recon_layers_err_extends(s: Seq<u8>, pos: int, layers: Seq<ChannelAudioLayer>, k: nat, m: nat)
    requires
        k <= m,
        spec_recon_layers(s, pos, layers, k) is Err,
    ensures
        spec_recon_layers(s, pos, layers, m) == spec_recon_layers(s, pos, layers, k),
    decreases m,
{
    if m > k {
        lemma_recon_layers_err_extends(s, pos, layers, k, (m - 1) as nat);
    }
}

#[verifier::loop_isolation(false)]
fn read_recon_layer(r: &mut ByteReader<'_>, layer: &ChannelAudioLayer) -> (res: Result<Option<(u32, Vec<u8>)>, Error>)
    requires
        old(r).cursor() <= old(r).input().len(),
    ensures
        final(r).input() == old(r).input(),
        final(r).cursor() <= final(r).input().len(),
        agrees(
            match res {
                Ok(Some((f, g))) => Ok(Some((f, g@))),
                Ok(None) => Ok(None),
                Err(e) => Err(e),
            },
            final(r).cursor(),
            spec_recon_layer(old(r).input(), old(r).cursor(), *layer),
        ),
{
    if !layer.recon_gain_is_present {
        return Ok(None);
    }
    let flags = r.read_leb128()?;
    let ghost input = r.input();
    let ghost start = r.cursor();
    let mut gains: Vec<u8> = Vec::new();
    let mut bit: u32 = 0;
    while bit < 32
        invariant
            input == old(r).input(),
            r.input() == input,
            r.cursor() <= r.input().len(),
            bit <= 32,
            spec_list(input, start, count_bits(flags, bit as nat), u8_item()) == Ok::<(Seq<u8>, int), Error>(
                (gains@, r.cursor()),
            ),
        decreases 32 - bit,
    {
        if flags & (1u32 << bit) != 0 {
            let ghost here = r.cursor();
            let g = match r.read_u8() {
                Ok(g) => g,
                Err(e) => {
                    proof {
                        assert(count_bits(flags, (bit + 1) as nat) == count_bits(flags, bit as nat) + 1);
                        assert(spec_list(input, start, count_bits(flags, (bit + 1) as nat), u8_item())
                            == Err::<(Seq<u8>, int), Error>(e));
                        lemma_count_bits_le(flags, (bit + 1) as nat, 32);
                        lemma_list_err_extends(
                            input,
                            start,
                            count_bits(flags, (bit + 1) as nat),
                            count_bits(flags, 32),
                            u8_item(),
                        );
                    }
                    return Err(e);
                },
            };
            gains.push(g);
        }
        bit = bit + 1;
    }
    Ok(Some((flags, gains)))
}

pub proof fn lemma_count_bits_le(flags: u32, k: nat, m: nat)
    requires
        k <= m,
    ensures
        count_bits(flags, k) <= count_bits(flags, m),
    decreases m,
{
    if m > k {
        lemma_count_bits_le(flags, k, (m - 1) as nat);
    }
}

fn parse_recon_gain(r: &mut ByteReader<'_>, layers: &[ChannelAudioLayer]) -> (res: Result<ReconGainLayers, Error>)
    requires
        old(r).cursor() <= old(r).input().len(),
    ensures
        final(r).input() == old(r).input(),
        final(r).cursor() <= final(r).input().len(),
        agrees(
            match res {
                Ok(l) => Ok(recon_view(l)),
                Err(e) => Err(e),
            },
            final(r).cursor(),
            spec_recon_layers(old(r).input(), old(r).cursor(), layers@, layers@.len()),
        ),
{
    let ghost input = r.input();
    let ghost start = r.cursor();
    let mut out: ReconGainLayers = Vec::new();
    let mut j: usize = 0;
    assert(recon_view(out) =~= Seq::<Option<(u32, Seq<u8>)>>::empty());
    while j < layers.len()
        invariant
            input == old(r).input(),
            start == old(r).cursor(),
            r.input() == input,
            r.cursor() <= r.input().len(),
            j <= layers.len(),
            spec_recon_layers(input, start, layers@, j as nat) == Ok::<(SpecReconGainLayers, int), Error>(
                (recon_view(out), r.cursor()),
            ),
        decreases layers.len() - j,
    {
        let x = match read_recon_layer(r, &layers[j]) {
            Ok(x) => x,
            Err(e) => {
                proof {
                    lemma_recon_layers_err_extends(input, start, layers@, (j + 1) as nat, layers@.len());
                }
                return Err(e);
            },
        };
        let ghost before = out;
        out.push(x);
        assert(recon_view(out) =~= recon_view(before).push(
            match x {
                Some((f, g)) => Some((f, g@)),
                None => None,
            },
        ));
        j = j + 1;
    }
    Ok(out)
}

/// Everything that decides a subblock's syntax and duration.
pub struct SubblockEnv {
    pub definition: SpecParamDefinition,
    pub context: SpecParamContext,
    pub duration: u32,
    pub constant_subblock_duration: u32,
    pub num_subblocks: u32,
}

/// Subblock `i`: its duration (explicit leb128 in mode 1 without a
/// constant duration, from the definition in mode 0, else the constant,
/// with the last subblock taking the remainder), then its data; a subblock
/// at the end of the input is truncated input.
pub open spec fn spec_subblock(s: Seq<u8>, pos: int, i: nat, env: SubblockEnv) -> SpecResult<SpecParameterSubblock> {
    if pos >= s.len() {
        eof(pos)
    } else {
        let csd = env.constant_subblock_duration;
        let dur: SpecResult<u32> = if csd == 0 {
            if env.definition.mode {
                spec_read_leb128(s, pos)
            } else {
                Ok((env.definition.subblock_durations[i as int], pos))
            }
        } else if i == env.num_subblocks - 1 && env.duration % csd != 0 {
            Ok(((env.duration % csd) as u32, pos))
        } else {
            Ok((csd, pos))
        };
        match dur {
            Err(e) => Err(e),
            Ok((duration, p)) => {
                let data: SpecResult<SpecSubblockData> = match env.context {
                    SpecParamContext::MixGain => match spec_mix_gain(s, p) {
                        Err(e) => Err(e),
                        Ok((a, q)) => Ok((SpecSubblockData::MixGain(a), q)),
                    },
                    SpecParamContext::Demixing => match spec_read_u8(s, p) {
                        Err(e) => Err(e),
                        Ok((b, q)) => Ok((SpecSubblockData::Demixing { dmixp_mode: b >> 5u8 & 0x07 }, q)),
                    },
                    SpecParamContext::ReconGain(layers) => match spec_recon_layers(s, p, layers, layers.len()) {
                        Err(e) => Err(e),
                        Ok((l, q)) => Ok((SpecSubblockData::ReconGain(l), q)),
                    },
                };
                match data {
                    Err(e) => Err(e),
                    Ok((data, q)) => Ok((SpecParameterSubblock { duration, data }, q)),
                }
            },
        }
    }
}

/// The first `n` subblocks.
pub open spec fn spec_subblocks(s: Seq<u8>, pos: int, n: nat, env: SubblockEnv) -> SpecResult<Seq<SpecParameterSubblock>>
    decreases n,
{
    if n == 0 {
        Ok((Seq::empty(), pos))
    } else {
        match spec_subblocks(s, pos, (n - 1) as nat, env) {
            Err(e) => Err(e),
            Ok((xs, p)) => match spec_subblock(s, p, (n - 1) as nat, env) {
                Err(e) => Err(e),
                Ok((x, q)) => Ok((xs.push(x), q)),
            },
        }
    }
}

proof fn lemma_subblocks_err_extends(s: Seq<u8>, pos: int, k: nat, m: nat, env: SubblockEnv)
    requires
        k <= m,
        spec_subblocks(s, pos, k, env) is Err,
    ensures
        spec_subblocks(s, pos, m, env) == spec_subblocks(s, pos, k, env),
    decreases m,
{
    if m > k {
        lemma_subblocks_err_extends(s, pos, k, (m - 1) as nat, env);
    }
}

proof fn lemma_leb128_advances(s: Seq<u8>, pos: int)
    ensures
        spec_read_leb128(s, pos) matches Ok((_, p)) ==> p > pos,
{
    crate::leb128::lemma_decode_consumed(s.subrange(pos, s.len() as int), pos as usize);
}

proof fn lemma_mix_gain_advances(s: Seq<u8>, pos: int)
    ensures
        spec_mix_gain(s, pos) matches Ok((_, p)) ==> p > pos,
{
    lemma_leb128_advances(s, pos);
}

/// A mix-gain or demixing subblock takes at least one byte.
proof fn lemma_subblock_advances(s: Seq<u8>, pos: int, i: nat, env: SubblockEnv)
    requires
        !(env.context is ReconGain),
    ensures
        spec_subblock(s, pos, i, env) matches Ok((_, q)) ==> q > pos && pos < s.len(),
{
    lemma_leb128_advances(s, pos);
    if let Ok((_, p)) = spec_read_leb128(s, pos) {
        lemma_mix_gain_advances(s, p);
    }
    lemma_mix_gain_advances(s, pos);
}

proof fn lemma_subblocks_take_bytes(s: Seq<u8>, pos: int, n: nat, env: SubblockEnv)
    requires
        !(env.context is ReconGain),
    ensures
        spec_subblocks(s, pos, n, env) matches Ok((_, q)) ==> q >= pos + n && (n > 0 ==> pos + n <= s.len()),
    decreases n,
{
    if n > 0 {
        lemma_subblocks_take_bytes(s, pos, (n - 1) as nat, env);
        if let Ok((_, p)) = spec_subblocks(s, pos, (n - 1) as nat, env) {
            lemma_subblock_advances(s, p, (n - 1) as nat, env);
        }
    }
}

/// Mix-gain and demixing subblocks each take at least one byte, so a
/// parameter block announcing more of them than bytes remain is refused:
/// from `pos`, `n` subblocks parse only when `n` bytes remain. (Recon-gain
/// subblocks can take no bytes, so this does not hold of them.)
pub proof fn lemma_subblocks_need_bytes(s: Seq<u8>, pos: int, n: nat, env: SubblockEnv)
    requires
        !(env.context is ReconGain),
        n > 0,
        n > s.len() - pos,
    ensures
        spec_subblocks(s, pos, n, env) is Err,
{
    lemma_subblocks_take_bytes(s, pos, n, env);
}

/// For a mix-gain or demixing parameter block, the number of subblocks
/// never exceeds the payload length.
pub proof fn lemma_parameter_block_subblocks_bounded(s: Seq<u8>, definition: SpecParamDefinition, context: SpecParamContext)
    requires
        !(context is ReconGain),
    ensures
        spec_parameter_block(s, definition, context) matches Ok(b) ==> b.subblocks.len() <= s.len(),
{
    if let Ok(b) = spec_parameter_block(s, definition, context) {
        let p1 = spec_read_leb128(s, 0)->Ok_0.1;
        lemma_leb128_advances(s, 0);
        let p: int = if definition.mode {
            let p2 = spec_read_leb128(s, p1)->Ok_0.1;
            lemma_leb128_advances(s, p1);
            lemma_leb128_advances(s, p2);
            let p3 = spec_read_leb128(s, p2)->Ok_0.1;
            lemma_leb128_advances(s, p3);
            if b.constant_subblock_duration == 0 {
                spec_read_leb128(s, p3)->Ok_0.1
            } else {
                p3
            }
        } else {
            p1
        };
        let csd = b.constant_subblock_duration;
        let n: u32 = if csd == 0 {
            if definition.mode {
                spec_read_leb128(s, spec_read_leb128(s, spec_read_leb128(s, p1)->Ok_0.1)->Ok_0.1)->Ok_0.0
            } else {
                definition.subblock_durations.len() as u32
            }
        } else {
            div_ceil(b.duration, csd)
        };
        let env = SubblockEnv { definition, context, duration: b.duration, constant_subblock_duration: csd, num_subblocks: n };
        lemma_subblocks_take_bytes(s, p, n as nat, env);
        lemma_subblocks_shape(s, p, n as nat, env);
    }
}

/// The duration subblock `i` gets from a constant subblock duration: the
/// constant, except a last subblock taking the nonzero remainder.
pub open spec fn constant_subblock_duration_of(env: SubblockEnv, i: nat) -> u32 {
    let csd = env.constant_subblock_duration;
    if i == env.num_subblocks - 1 && env.duration % csd != 0 {
        (env.duration % csd) as u32
    } else {
        csd
    }
}

proof fn lemma_subblocks_shape(s: Seq<u8>, pos: int, n: nat, env: SubblockEnv)
    ensures
        spec_subblocks(s, pos, n, env) matches Ok((xs, _)) ==> xs.len() == n && (env.constant_subblock_duration
            != 0 ==> forall|k: int| 0 <= k < n ==> #[trigger] xs[k].duration == constant_subblock_duration_of(env, k as nat)),
    decreases n,
{
    if n > 0 {
        lemma_subblocks_shape(s, pos, (n - 1) as nat, env);
    }
}

/// Sum of the durations of the first `n` subblocks.
pub open spec fn durations_sum(xs: Seq<SpecParameterSubblock>, n: nat) -> nat
    decreases n,
{
    if n == 0 {
        0
    } else {
        durations_sum(xs, (n - 1) as nat) + xs[n - 1].duration as nat
    }
}

proof fn lemma_constant_sum(xs: Seq<SpecParameterSubblock>, env: SubblockEnv, n: nat)
    requires
        env.constant_subblock_duration != 0,
        n < env.num_subblocks,
        forall|k: int| 0 <= k < n ==> #[trigger] xs[k].duration == constant_subblock_duration_of(env, k as nat),
    ensures
        durations_sum(xs, n) == n * env.constant_subblock_duration,
    decreases n,
{
    if n > 0 {
        lemma_constant_sum(xs, env, (n - 1) as nat);
        assert(xs[n - 1].duration == constant_subblock_duration_of(env, (n - 1) as nat));
        assert(constant_subblock_duration_of(env, (n - 1) as nat) == env.constant_subblock_duration);
        assert(durations_sum(xs, n) == durations_sum(xs, (n - 1) as nat) + xs[n - 1].duration as nat);
        let m = (n - 1) as nat;
        let c = env.constant_subblock_duration as nat;
        assert(n * c == m * c + c) by (nonlinear_arith)
            requires
                m + 1 == n,
        ;
        assert(durations_sum(xs, n) == n * c);
    } else {
        assert(durations_sum(xs, n) == 0);
    }
}

/// With a constant subblock duration `csd`, a parameter block of duration
/// `d` has ceil(d / csd) subblocks, each lasting `csd` but a last one
/// lasting the nonzero remainder `d % csd`: their durations sum to `d`.
pub proof fn lemma_constant_subblocks(s: Seq<u8>, definition: SpecParamDefinition, context: SpecParamContext)
    ensures
        spec_parameter_block(s, definition, context) matches Ok(b) ==> b.constant_subblock_duration > 0 ==> {
            let (d, csd) = (b.duration, b.constant_subblock_duration);
            &&& b.subblocks.len() == d / csd + if d % csd != 0 {
                1int
            } else {
                0int
            }
            &&& forall|k: int| 0 <= k < b.subblocks.len() - 1 ==> #[trigger] b.subblocks[k].duration == csd
            &&& b.subblocks.len() > 0 ==> b.subblocks.last().duration == if d % csd != 0 {
                (d % csd) as u32
            } else {
                csd
            }
            &&& durations_sum(b.subblocks, b.subblocks.len()) == d
        },
{
    if let Ok(b) = spec_parameter_block(s, definition, context) {
        if b.constant_subblock_duration > 0 {
            let (d, csd) = (b.duration, b.constant_subblock_duration);
            let p1 = spec_read_leb128(s, 0)->Ok_0.1;
            let p: int = if definition.mode {
                spec_read_leb128(s, spec_read_leb128(s, p1)->Ok_0.1)->Ok_0.1
            } else {
                p1
            };
            let n = div_ceil(d, csd);
            let env = SubblockEnv { definition, context, duration: d, constant_subblock_duration: csd, num_subblocks: n };
            if d % csd != 0 {
                assert(csd >= 2) by {
                    if csd == 1 {
                        assert(d % 1 == 0);
                    }
                }
                vstd::arithmetic::div_mod::lemma_div_is_ordered_by_denominator(d as int, 2, csd as int);
                assert(d / csd + 1 <= 0xffff_ffff);
            }
            assert(n == d / csd + if d % csd != 0 { 1int } else { 0int });
            lemma_subblocks_shape(s, p, n as nat, env);
            let xs = b.subblocks;
            assert(xs == spec_subblocks(s, p, n as nat, env)->Ok_0.0);
            if n > 0 {
                lemma_constant_sum(xs, env, (n - 1) as nat);
                vstd::arithmetic::div_mod::lemma_fundamental_div_mod(d as int, csd as int);
                if d % csd != 0 {
                    assert((n - 1) * csd + d % csd == d) by (nonlinear_arith)
                        requires
                            n - 1 == d / csd,
                            d == csd * (d / csd) + d % csd,
                    ;
                } else {
                    assert((n - 1) * csd + csd == d) by (nonlinear_arith)
                        requires
                            n == d / csd,
                            d == csd * (d / csd) + d % csd,
                            d % csd == 0,
                    ;
                }
                assert(xs[n - 1].duration == constant_subblock_duration_of(env, (n - 1) as nat));
            } else {
                vstd::arithmetic::div_mod::lemma_fundamental_div_mod(d as int, csd as int);
                assert(d == 0) by (nonlinear_arith)
                    requires
                        d / csd == 0,
                        d % csd == 0,
                        d == csd * (d / csd) + d % csd,
                ;
            }
        }
    }
}

/// `duration / csd` rounded up.
pub open spec fn div_ceil(duration: u32, csd: u32) -> u32 {
    (duration / csd + if duration % csd != 0 {
        1u32
    } else {
        0u32
    }) as u32
}

/// A whole parameter block payload: parameter_id (leb128); in mode 1 its
/// own duration, constant subblock duration and, when that is 0, subblock
/// count (leb128), in mode 0 the definition's timing; the subblock count is
/// explicit, the definition's list length, or duration / constant
/// duration rounded up; then the subblocks.
pub open spec fn spec_parameter_block(s: Seq<u8>, definition: SpecParamDefinition, context: SpecParamContext) -> Result<
    SpecParameterBlock,
    Error,
> {
    match spec_read_leb128(s, 0) {
        Err(e) => Err(e),
        Ok((parameter_id, p1)) => {
            let timing: SpecResult<(u32, u32, Option<u32>)> = if definition.mode {
                match spec_read_leb128(s, p1) {
                    Err(e) => Err(e),
                    Ok((duration, p2)) => match spec_read_leb128(s, p2) {
                        Err(e) => Err(e),
                        Ok((csd, p3)) => if csd == 0 {
                            match spec_read_leb128(s, p3) {
                                Err(e) => Err(e),
                                Ok((count, p4)) => Ok(((duration, csd, Some(count)), p4)),
                            }
                        } else {
                            Ok(((duration, csd, None), p3))
                        },
                    },
                }
            } else {
                Ok(((definition.duration, definition.constant_subblock_duration, None), p1))
            };
            match timing {
                Err(e) => Err(e),
                Ok(((duration, csd, count), p)) => {
                    let num_subblocks: u32 = if csd == 0 {
                        match count {
                            Some(c) => c,
                            None => definition.subblock_durations.len() as u32,
                        }
                    } else {
                        div_ceil(duration, csd)
                    };
                    let env = SubblockEnv {
                        definition,
                        context,
                        duration,
                        constant_subblock_duration: csd,
                        num_subblocks,
                    };
                    match spec_subblocks(s, p, num_subblocks as nat, env) {
                        Err(e) => Err(e),
                        Ok((subblocks, _)) => Ok(
                            SpecParameterBlock {
                                parameter_id,
                                duration,
                                constant_subblock_duration: csd,
                                subblocks,
                            },
                        ),
                    }
                },
            }
        },
    }
}

pub open spec fn spec_peek_parameter_id(payload: Seq<u8>) -> Result<u32, Error> {
    match spec_read_leb128(payload, 0) {
        Ok((id, _)) => Ok(id),
        Err(e) => Err(e),
    }
}

impl ParameterBlock {
    /// Reads only the parameter ID, so callers can look up the matching
    /// definition before parsing the rest with [`ParameterBlock::parse`].
    pub fn peek_parameter_id(payload: &[u8]) -> (res: Result<u32, Error>)
        ensures
            res == spec_peek_parameter_id(payload@),
    {
        let mut r = ByteReader::new(payload);
        r.read_leb128()
    }

    fn parse_subblock(
        r: &mut ByteReader<'_>,
        i: u32,
        definition: &ParamDefinition,
        context: &ParamContext<'_>,
        duration: u32,
        constant_subblock_duration: u32,
        num_subblocks: u32,
    ) -> (res: Result<ParameterSubblock, Error>)
        requires
            old(r).cursor() <= old(r).input().len(),
            i < num_subblocks,
            constant_subblock_duration == 0 && !definition.mode ==> num_subblocks <= definition.subblock_durations@.len(),
        ensures
            final(r).input() == old(r).input(),
            final(r).cursor() <= final(r).input().len(),
            agrees(
                view_sb(res),
                final(r).cursor(),
                spec_subblock(
                    old(r).input(),
                    old(r).cursor(),
                    i as nat,
                    SubblockEnv {
                        definition: definition@,
                        context: context@,
                        duration,
                        constant_subblock_duration,
                        num_subblocks,
                    },
                ),
            ),
    {
        // A subblock consumes at least one byte; bail before the loop
        // can be driven far by a hostile count.
        if r.is_empty() {
            return Err(Error::UnexpectedEof { offset: r.position() });
        }
        let subblock_duration = if constant_subblock_duration == 0 {
            if definition.mode {
                r.read_leb128()?
            } else {
                definition.subblock_durations[i as usize]
            }
        } else if i == num_subblocks - 1 && duration % constant_subblock_duration != 0 {
            duration % constant_subblock_duration
        } else {
            constant_subblock_duration
        };

        let data = match context {
            ParamContext::MixGain => SubblockData::MixGain(parse_mix_gain(r)?),
            ParamContext::Demixing => SubblockData::Demixing { dmixp_mode: r.read_u8()? >> 5 & 0x07 },
            ParamContext::ReconGain(layers) => SubblockData::ReconGain(parse_recon_gain(r, layers)?),
        };
        Ok(ParameterSubblock { duration: subblock_duration, data })
    }

    #[verifier::loop_isolation(false)]
    pub fn parse(payload: &[u8], definition: &ParamDefinition, context: &ParamContext<'_>) -> (res: Result<Self, Error>)
        ensures
            match res {
                Ok(b) => spec_parameter_block(payload@, definition@, context@) == Ok::<SpecParameterBlock, Error>(b@),
                Err(e) => spec_parameter_block(payload@, definition@, context@) == Err::<SpecParameterBlock, Error>(e),
            },
    {
        let mut r = ByteReader::new(payload);
        let parameter_id = r.read_leb128()?;

        // Timing comes from the block itself in mode 1, from the parameter
        // definition in mode 0.
        let (duration, constant_subblock_duration, explicit_count) = if definition.mode {
            let duration = r.read_leb128()?;
            let csd = r.read_leb128()?;
            let count = if csd == 0 {
                Some(r.read_leb128()?)
            } else {
                None
            };
            (duration, csd, count)
        } else {
            (definition.duration, definition.constant_subblock_duration, None)
        };

        let num_subblocks: u32 = if constant_subblock_duration == 0 {
            match explicit_count {
                Some(count) => count,
                None => definition.subblock_durations.len() as u32,
            }
        } else {
            assert(duration % constant_subblock_duration != 0 ==> duration / constant_subblock_duration < 0xffff_ffff)
                by (nonlinear_arith)
                requires
                    constant_subblock_duration > 0,
                    duration <= 0xffff_ffff,
            {
                if duration % constant_subblock_duration != 0 {
                    assert(constant_subblock_duration >= 2);
                }
            }
            duration / constant_subblock_duration + if duration % constant_subblock_duration != 0 {
                1
            } else {
                0
            }
        };
        let ghost env = SubblockEnv {
            definition: definition@,
            context: context@,
            duration,
            constant_subblock_duration,
            num_subblocks,
        };
        let ghost start = r.cursor();
        let mut subblocks: Vec<ParameterSubblock> = Vec::new();
        let mut i: u32 = 0;
        assert(views(subblocks@) =~= Seq::<SpecParameterSubblock>::empty());
        while i < num_subblocks
            invariant
                r.input() == payload@,
                r.cursor() <= r.input().len(),
                i <= num_subblocks,
                spec_subblocks(payload@, start, i as nat, env) == Ok::<(Seq<SpecParameterSubblock>, int), Error>(
                    (views(subblocks@), r.cursor()),
                ),
            decreases num_subblocks - i,
        {
            let sb = match Self::parse_subblock(
                &mut r,
                i,
                definition,
                context,
                duration,
                constant_subblock_duration,
                num_subblocks,
            ) {
                Ok(sb) => sb,
                Err(e) => {
                    proof {
                        lemma_subblocks_err_extends(payload@, start, (i + 1) as nat, num_subblocks as nat, env);
                    }
                    return Err(e);
                },
            };
            let ghost before = subblocks@;
            subblocks.push(sb);
            assert(views(subblocks@) =~= views(before).push(sb@));
            i = i + 1;
        }

        Ok(ParameterBlock { parameter_id, duration, constant_subblock_duration, subblocks })
    }
}

pub open spec fn view_sb(res: Result<ParameterSubblock, Error>) -> Result<SpecParameterSubblock, Error> {
    match res {
        Ok(b) => Ok(b@),
        Err(e) => Err(e),
    }
}

/// The value that is in effect at the current clock position.
pub open spec fn timeline_current<T>(queue: Seq<(T, usize)>, last: Option<T>) -> Option<T> {
    if queue.len() > 0 {
        Some(queue[0].0)
    } else {
        last
    }
}

/// The timeline after `remaining` samples elapse: whole entries are
/// retired (each becoming the sticky value), a partly elapsed entry keeps
/// its rest.
pub open spec fn timeline_consume<T>(queue: Seq<(T, usize)>, last: Option<T>, remaining: nat) -> (
    Seq<(T, usize)>,
    Option<T>,
)
    decreases queue.len(),
{
    if remaining == 0 || queue.len() == 0 {
        (queue, last)
    } else if remaining >= queue[0].1 {
        timeline_consume(queue.drop_first(), Some(queue[0].0), (remaining - queue[0].1) as nat)
    } else {
        (queue.update(0, (queue[0].0, (queue[0].1 - remaining) as usize)), last)
    }
}

/// The value in effect `t` samples from now: the entry covering `t`, or,
/// past the end of the timeline, the last value that ran out (the sticky
/// value when the timeline is empty).
pub open spec fn timeline_value_at<T>(queue: Seq<(T, usize)>, last: Option<T>, t: nat) -> Option<T>
    decreases queue.len(),
{
    if queue.len() == 0 {
        last
    } else if t < queue[0].1 {
        Some(queue[0].0)
    } else {
        timeline_value_at(queue.drop_first(), Some(queue[0].0), (t - queue[0].1) as nat)
    }
}

/// Every entry of the timeline covers at least one sample.
pub open spec fn timeline_wf<T>(queue: Seq<(T, usize)>) -> bool {
    forall|i: int| 0 <= i < queue.len() ==> #[trigger] queue[i].1 > 0
}

/// Timeline of parameter values over the output sample clock, fed from
/// parameter-block subblocks and consumed one temporal unit at a time.
///
/// Each pushed value covers `duration` samples. [`ParamCursor::take_for_unit`]
/// returns the value covering the start of the next unit and advances the
/// clock by the unit length, so a single parameter block whose subblocks span
/// several temporal units applies each subblock to the units it covers.
/// When the timeline runs dry the last value stays in effect; `None` is
/// returned only before any value has arrived, letting callers keep the
/// descriptor defaults.
#[derive(Debug, Clone)]
pub struct ParamCursor<T> {
    queue: VecDeque<(T, usize)>,
    last: Option<T>,
}

impl<T> ParamCursor<T> {
    /// Every pending entry covers at least one sample.
    pub open spec fn wf(&self) -> bool {
        timeline_wf(self.timeline())
    }

    /// Pending `(value, samples)` entries, earliest first.
    pub closed spec fn timeline(&self) -> Seq<(T, usize)> {
        self.queue@
    }

    /// The value that stays in effect once the timeline runs dry.
    pub closed spec fn sticky(&self) -> Option<T> {
        self.last
    }
}

impl<T> Default for ParamCursor<T> {
    fn default() -> (c: Self)
        ensures
            c.wf(),
            c.timeline() == Seq::<(T, usize)>::empty(),
            c.sticky() is None,
    {
        ParamCursor { queue: VecDeque::new(), last: None }
    }
}

impl<T: Clone> ParamCursor<T> {
    pub fn push(&mut self, value: T, duration: usize)
        requires
            old(self).wf(),
        ensures
            final(self).wf(),
            duration > 0 ==> final(self).timeline() == old(self).timeline().push((value, duration))
                && final(self).sticky() == old(self).sticky(),
            duration == 0 ==> final(self).timeline() == old(self).timeline() && final(self).sticky() == Some(value),
    {
        if duration > 0 {
            self.queue.push_back((value, duration));
            assert(timeline_wf(self.queue@)) by {
                assert forall|i: int| 0 <= i < self.queue@.len() implies #[trigger] self.queue@[i].1 > 0 by {
                    if i < old(self).queue@.len() {
                        assert(self.queue@[i] == old(self).queue@[i]);
                    }
                }
            }
        } else {
            // Zero-length coverage still updates the sticky value.
            self.last = Some(value);
        }
    }

    /// Value in effect at the start of a `unit_len`-sample temporal unit;
    /// consumes the unit from the timeline.
    pub fn take_for_unit(&mut self, unit_len: usize) -> (value: Option<T>)
        requires
            old(self).wf(),
        ensures
            final(self).wf(),
            (final(self).timeline(), final(self).sticky()) == timeline_consume(
                old(self).timeline(),
                old(self).sticky(),
                unit_len as nat,
            ),
            value is None <==> timeline_current(old(self).timeline(), old(self).sticky()) is None,
            value matches Some(v) ==> cloned(timeline_current(old(self).timeline(), old(self).sticky())->0, v),
    {
        let value = if self.queue.len() > 0 {
            Some(self.queue[0].0.clone())
        } else {
            match &self.last {
                Some(v) => Some(v.clone()),
                None => None,
            }
        };
        let mut remaining = unit_len;
        let ghost goal = timeline_consume(old(self).timeline(), old(self).sticky(), unit_len as nat);
        while remaining > 0 && self.queue.len() > 0
            invariant
                timeline_wf(self.queue@),
                goal == timeline_consume(self.queue@, self.last, remaining as nat),
            decreases self.queue@.len(), remaining,
        {
            let ghost popped = self.queue@;
            let (v, duration) = self.queue.pop_front().unwrap();
            if remaining >= duration {
                remaining = remaining - duration;
                self.last = Some(v);
                assert(timeline_wf(self.queue@)) by {
                    assert forall|i: int| 0 <= i < self.queue@.len() implies #[trigger] self.queue@[i].1 > 0 by {
                        assert(self.queue@[i] == popped[i + 1]);
                    }
                }
            } else {
                let ghost before = self.queue@;
                let rest = duration - remaining;
                self.queue.push_front((v, rest));
                remaining = 0;
                assert(self.queue@ =~= seq![(v, rest)] + before);
            }
        }
        value
    }

    pub fn clear(&mut self)
        ensures
            final(self).wf(),
            final(self).timeline() == Seq::<(T, usize)>::empty(),
            final(self).sticky() is None,
    {
        self.queue.clear();
        self.last = None;
    }
}

/// Samples the whole timeline covers.
pub open spec fn timeline_total<T>(queue: Seq<(T, usize)>) -> nat
    decreases queue.len(),
{
    if queue.len() == 0 {
        0
    } else {
        queue[0].1 as nat + timeline_total(queue.drop_first())
    }
}

/// A unit takes the value in effect at its first sample.
pub proof fn lemma_current_is_value_at_start<T>(queue: Seq<(T, usize)>, last: Option<T>)
    requires
        timeline_wf(queue),
    ensures
        timeline_current(queue, last) == timeline_value_at(queue, last, 0),
{
    if queue.len() > 0 {
        assert(queue[0].1 > 0);
    }
}

/// Consuming a unit of `len` samples shifts the timeline by `len`: what was
/// in effect at `t + len` is in effect at `t` afterwards, for every `t`.
pub proof fn lemma_consume_shifts<T>(queue: Seq<(T, usize)>, last: Option<T>, len: nat, t: nat)
    requires
        timeline_wf(queue),
    ensures
        timeline_value_at(timeline_consume(queue, last, len).0, timeline_consume(queue, last, len).1, t)
            == timeline_value_at(queue, last, t + len),
    decreases queue.len(),
{
    if len == 0 || queue.len() == 0 {
    } else if len >= queue[0].1 {
        let rest = queue.drop_first();
        assert(timeline_wf(rest)) by {
            assert forall|i: int| 0 <= i < rest.len() implies #[trigger] rest[i].1 > 0 by {
                assert(rest[i] == queue[i + 1]);
            }
        }
        lemma_consume_shifts(rest, Some(queue[0].0), (len - queue[0].1) as nat, t);
    } else {
        let updated = queue.update(0, (queue[0].0, (queue[0].1 - len) as usize));
        assert(updated.drop_first() =~= queue.drop_first());
    }
}

/// Once every pushed duration has been consumed, the next value pushed is
/// the one the next unit takes, whatever its duration: a zero duration
/// still makes it the value in effect.
pub proof fn lemma_push_then_take<T>(last: Option<T>, value: T, duration: usize)
    ensures
        duration > 0 ==> timeline_current(Seq::<(T, usize)>::empty().push((value, duration)), last) == Some(value),
        duration == 0 ==> timeline_current(Seq::<(T, usize)>::empty(), Some(value)) == Some(value),
{
}

/// Pushing `(value, duration)` leaves the timeline unchanged before its
/// end and puts `value` in effect from there on (for `duration` samples and,
/// once it runs out, as the sticky value).
pub proof fn lemma_push_extends<T>(queue: Seq<(T, usize)>, last: Option<T>, value: T, duration: usize, t: nat)
    requires
        duration > 0,
    ensures
        timeline_value_at(queue.push((value, duration)), last, t) == (if t < timeline_total(queue) {
            timeline_value_at(queue, last, t)
        } else {
            Some(value)
        }),
    decreases queue.len(),
{
    let pushed = queue.push((value, duration));
    if queue.len() == 0 {
        assert(pushed.drop_first() =~= Seq::<(T, usize)>::empty());
        assert(pushed[0] == (value, duration));
        assert(timeline_value_at(pushed.drop_first(), Some(value), (t - duration) as nat) == Some(value));
    } else {
        assert(pushed[0] == queue[0]);
        assert(pushed.drop_first() =~= queue.drop_first().push((value, duration)));
        if t >= queue[0].1 {
            lemma_push_extends(queue.drop_first(), Some(queue[0].0), value, duration, (t - queue[0].1) as nat);
        }
    }
}

} // verus!
