//! Element reconstruction helpers: ambisonics orders and de-interleaving
//! of substream PCM.

use vstd::prelude::*;

use crate::channels::{
    default_recon_flags, new_channels, output_gain_channel, rendering_channels, spec_default_recon_flags,
    spec_new_channels, spec_output_gain_channel, spec_rendering_channels, Channel,
};
use crate::decode_error::DecodeError;
use crate::descriptors::ChannelAudioLayer;
use crate::error::{decimal, format_number};
use crate::layout::{loudspeaker_sound_system, spec_loudspeaker_sound_system, SoundSystem};

verus! {

/// Full ambisonics orders, zeroth through fourth.
#[derive(Debug, Clone, Copy, PartialEq, Eq, Structural)]
pub enum HoaOrder {
    Zoa,
    Foa,
    Soa,
    Toa,
    H4a,
}

/// The order whose ACN channel count is `channels` (1, 4, 9, 16, 25).
pub open spec fn spec_hoa_order(channels: u8) -> Option<HoaOrder> {
    if channels == 1 {
        Some(HoaOrder::Zoa)
    } else if channels == 4 {
        Some(HoaOrder::Foa)
    } else if channels == 9 {
        Some(HoaOrder::Soa)
    } else if channels == 16 {
        Some(HoaOrder::Toa)
    } else if channels == 25 {
        Some(HoaOrder::H4a)
    } else {
        None
    }
}

/// The ambisonics order of `channels` ACN channels; other counts are not a
/// full order and are rejected.
pub fn hoa_order(channels: u8) -> (r: Result<HoaOrder, DecodeError>)
    ensures
        match r {
            Ok(o) => spec_hoa_order(channels) == Some(o),
            Err(DecodeError::InvalidDescriptors(m)) => spec_hoa_order(channels) is None && m@ == decimal(
                channels as nat,
            ) + " channels is not a full ambisonics order"@,
            Err(_) => false,
        },
{
    match channels {
        1 => Ok(HoaOrder::Zoa),
        4 => Ok(HoaOrder::Foa),
        9 => Ok(HoaOrder::Soa),
        16 => Ok(HoaOrder::Toa),
        25 => Ok(HoaOrder::H4a),
        _ => {
            let m = format_number("", channels as usize, " channels is not a full ambisonics order");
            proof {
                reveal_strlit("");
                assert(""@ + decimal(channels as nat) =~= decimal(channels as nat));
            }
            Err(DecodeError::InvalidDescriptors(m))
        },
    }
}

/// The integer square root of `n`: the largest `r` with `r * r <= n`.
pub open spec fn is_isqrt(n: nat, r: nat) -> bool {
    r * r <= n < (r + 1) * (r + 1)
}

fn isqrt(n: usize) -> (r: usize)
    ensures
        is_isqrt(n as nat, r as nat),
{
    // Largest r with r * r <= n, by bisection on [lo, hi).
    let mut lo: u64 = 0;
    let mut hi: u64 = if (n as u64) < 0xffff_ffff {
        n as u64 + 1
    } else {
        0x1_0000_0000
    };
    assert(hi * hi > n) by (nonlinear_arith)
        requires
            hi == (if n < 0xffff_ffff {
                n + 1
            } else {
                0x1_0000_0000
            }),
            n <= 0xffff_ffff_ffff_ffff,
    ;
    while lo + 1 < hi
        invariant
            lo < hi,
            hi <= 0x1_0000_0000,
            lo * lo <= n,
            hi * hi > n,
        decreases hi - lo,
    {
        let mid = lo + (hi - lo) / 2;
        assert(mid * mid < 0x1_0000_0000 * 0x1_0000_0000) by (nonlinear_arith)
            requires
                mid < 0x1_0000_0000,
        ;
        if mid * mid <= n as u64 {
            lo = mid;
        } else {
            hi = mid;
        }
    }
    assert(lo + 1 == hi);
    assert(lo <= n) by (nonlinear_arith)
        requires
            lo * lo <= n,
    ;
    lo as usize
}

/// ACN channel count → ambisonics order (√n − 1), saturating on empty
/// input so hostile plane lists cannot underflow.
pub fn hoa_order_index(channels: usize) -> (order: usize)
    ensures
        exists|r: nat| is_isqrt(channels as nat, r) && order == (if r == 0 {
            0
        } else {
            r - 1
        }),
{
    let r = isqrt(channels);
    r.saturating_sub(1)
}

/// Every `step`-th element of `s`, from `start` on.
pub open spec fn strided<S>(s: Seq<S>, start: nat, step: nat) -> Seq<S>
    decreases s.len() - start,
{
    if step == 0 || start >= s.len() {
        Seq::empty()
    } else if start + step >= s.len() {
        seq![s[start as int]]
    } else {
        seq![s[start as int]].add(strided(s, start + step, step))
    }
}

fn strided_plane<S: Copy>(samples: &[S], start: usize, step: usize) -> (plane: Vec<S>)
    requires
        step > 0,
    ensures
        plane@ == strided(samples@, start as nat, step as nat),
{
    let mut plane: Vec<S> = Vec::new();
    let mut i = start;
    while i < samples.len()
        invariant
            step > 0,
            plane@ + strided(samples@, i as nat, step as nat) == strided(samples@, start as nat, step as nat),
        decreases samples.len() - i,
    {
        let ghost before = plane@;
        plane.push(samples[i]);
        assert(before + strided(samples@, i as nat, step as nat) =~= plane@ + strided(
            samples@,
            (i + step) as nat,
            step as nat,
        ));
        if samples.len() - i <= step {
            assert(strided(samples@, (i + step) as nat, step as nat) =~= Seq::<S>::empty());
            assert(plane@ =~= strided(samples@, start as nat, step as nat));
            return plane;
        }
        i = i + step;
    }
    assert(strided(samples@, i as nat, step as nat) =~= Seq::<S>::empty());
    assert(plane@ + Seq::<S>::empty() =~= plane@);
    plane
}

/// Splits a substream's interleaved PCM into per-channel planes: plane
/// `c` holds samples `c`, `c + channels`, `c + 2 * channels`, ...
pub fn deinterleave<S: Copy>(samples: &[S], channels: usize) -> (planes: Vec<Vec<S>>)
    ensures
        planes@.len() == channels,
        forall|c: int| 0 <= c < channels ==> #[trigger] planes@[c]@ == strided(samples@, c as nat, channels as nat),
{
    let mut planes: Vec<Vec<S>> = Vec::new();
    let mut c: usize = 0;
    while c < channels
        invariant
            c <= channels,
            planes@.len() == c,
            forall|j: int| 0 <= j < c ==> #[trigger] planes@[j]@ == strided(samples@, j as nat, channels as nat),
        decreases channels - c,
    {
        planes.push(strided_plane(samples, c, channels));
        c = c + 1;
    }
    planes
}

proof fn lemma_isqrt_unique(n: nat, r: nat, q: nat)
    requires
        is_isqrt(n, r),
        is_isqrt(n, q),
    ensures
        r == q,
{
    if r < q {
        assert((r + 1) * (r + 1) <= q * q) by (nonlinear_arith)
            requires
                r + 1 <= q,
        ;
    } else if q < r {
        assert((q + 1) * (q + 1) <= r * r) by (nonlinear_arith)
            requires
                q + 1 <= r,
        ;
    }
}

/// For the channel count of a full order, the order index is that order:
/// 0 for mono (1 channel) up to 4 for fourth order (25 channels).
pub proof fn lemma_full_order_index(channels: u8, order: usize)
    requires
        spec_hoa_order(channels) is Some,
        exists|r: nat| is_isqrt(channels as nat, r) && order == (if r == 0 {
            0
        } else {
            r - 1
        }),
    ensures
        order == (match spec_hoa_order(channels) {
            Some(HoaOrder::Zoa) => 0usize,
            Some(HoaOrder::Foa) => 1,
            Some(HoaOrder::Soa) => 2,
            Some(HoaOrder::Toa) => 3,
            _ => 4,
        }),
{
    let r = choose|r: nat| is_isqrt(channels as nat, r) && order == (if r == 0 {
        0
    } else {
        r - 1
    });
    if channels == 1 {
        assert(is_isqrt(1, 1)) by (nonlinear_arith);
        lemma_isqrt_unique(1, r, 1);
    } else if channels == 4 {
        assert(is_isqrt(4, 2)) by (nonlinear_arith);
        lemma_isqrt_unique(4, r, 2);
    } else if channels == 9 {
        assert(is_isqrt(9, 3)) by (nonlinear_arith);
        lemma_isqrt_unique(9, r, 3);
    } else if channels == 16 {
        assert(is_isqrt(16, 4)) by (nonlinear_arith);
        lemma_isqrt_unique(16, r, 4);
    } else {
        assert(is_isqrt(25, 5)) by (nonlinear_arith);
        lemma_isqrt_unique(25, r, 5);
    }
}

/// How a channel-based element is reconstructed for a playback sound
/// system: the layer it is decoded up to, and what that implies.
#[derive(Debug, Clone, PartialEq, Eq)]
pub struct LayerPlan {
    /// Index of the selected layer.
    pub layer: usize,
    /// Loudspeaker layout of the selected layer.
    pub layout: u8,
    /// Channels of layers 0..=layer, in substream decode order.
    pub channels_in: Vec<Channel>,
    /// Channels given an output gain by layers 0..=layer, with that gain
    /// (Q7.8 dB), layer by layer and by flag bit.
    pub output_gains: Vec<(Channel, i16)>,
    /// Above the first layer, the channels whose recon gain defaults to
    /// unity (as flags) until a recon-gain parameter block arrives.
    pub default_recon: Option<u32>,
}

/// A layer the reconstructor can decode: a plain layout 0..=8.
pub open spec fn layer_supported(l: ChannelAudioLayer) -> bool {
    l.expanded_loudspeaker_layout is None && l.loudspeaker_layout <= 8
}

/// Layer `i` plays exactly on `target` (binaural selects like stereo).
pub open spec fn layer_matches(layers: Seq<ChannelAudioLayer>, i: int, target: SoundSystem) -> bool {
    spec_loudspeaker_sound_system(layers[i].loudspeaker_layout) == Some(
        if target == SoundSystem::Binaural {
            SoundSystem::A
        } else {
            target
        },
    )
}

/// Layer `i` has more rendering channels than `target` plays.
pub open spec fn layer_exceeds(layers: Seq<ChannelAudioLayer>, i: int, target: SoundSystem) -> bool {
    (match spec_rendering_channels(layers[i].loudspeaker_layout) {
        Some(c) => c.len(),
        None => 0,
    }) > target.spec_channels()
}

/// The selected layer: with `force_highest` the top one; else the first
/// that plays exactly on the target, else (with several layers) the first
/// with more channels than the target, else the top one.
pub open spec fn selected_layer(layers: Seq<ChannelAudioLayer>, target: SoundSystem, force_highest: bool, i: int) -> bool {
    if force_highest {
        i == layers.len() - 1
    } else if exists|k: int| 0 <= k < layers.len() && #[trigger] layer_matches(layers, k, target) {
        0 <= i < layers.len() && layer_matches(layers, i, target) && forall|j: int|
            0 <= j < i ==> !#[trigger] layer_matches(layers, j, target)
    } else if layers.len() > 1 && exists|k: int| 0 <= k < layers.len() && #[trigger] layer_exceeds(layers, k, target) {
        0 <= i < layers.len() && layer_exceeds(layers, i, target) && forall|j: int|
            0 <= j < i ==> !#[trigger] layer_exceeds(layers, j, target)
    } else {
        i == layers.len() - 1
    }
}

/// Channels of layers 0..n in decode order.
pub open spec fn channels_upto(layers: Seq<ChannelAudioLayer>, n: int) -> Seq<Channel>
    decreases n,
{
    if n <= 0 {
        Seq::empty()
    } else {
        channels_upto(layers, n - 1) + spec_new_channels(
            if n == 1 {
                None
            } else {
                Some(layers[n - 2].loudspeaker_layout)
            },
            layers[n - 1].loudspeaker_layout,
        )
    }
}

/// Output-gain channels of one layer for flag bits 0..bit.
pub open spec fn layer_gains(layout: u8, flags: u8, gain: i16, bit: u8) -> Seq<(Channel, i16)>
    decreases bit,
{
    if bit == 0 {
        Seq::empty()
    } else {
        let b = (bit - 1) as u8;
        layer_gains(layout, flags, gain, b) + (if flags & (1u8 << b) != 0 {
            match spec_output_gain_channel(layout, b) {
                Some(ch) => seq![(ch, gain)],
                None => Seq::empty(),
            }
        } else {
            Seq::empty()
        })
    }
}

/// Output-gain channels of layers 0..n.
pub open spec fn gains_upto(layers: Seq<ChannelAudioLayer>, n: int) -> Seq<(Channel, i16)>
    decreases n,
{
    if n <= 0 {
        Seq::empty()
    } else {
        gains_upto(layers, n - 1) + match layers[n - 1].output_gain {
            Some((flags, gain)) => layer_gains(layers[n - 1].loudspeaker_layout, flags, gain, 6),
            None => Seq::empty(),
        }
    }
}

fn layer_output_gains(out: &mut Vec<(Channel, i16)>, layout: u8, flags: u8, gain: i16)
    ensures
        final(out)@ == old(out)@ + layer_gains(layout, flags, gain, 6),
{
    let mut bit: u8 = 0;
    while bit < 6
        invariant
            bit <= 6,
            out@ == old(out)@ + layer_gains(layout, flags, gain, bit),
        decreases 6 - bit,
    {
        if flags & (1u8 << bit) != 0 {
            if let Some(ch) = output_gain_channel(layout, bit) {
                out.push((ch, gain));
            }
        }
        assert(layer_gains(layout, flags, gain, (bit + 1) as u8) == layer_gains(layout, flags, gain, bit) + (
        if flags & (1u8 << bit) != 0 {
            match spec_output_gain_channel(layout, bit) {
                Some(ch) => seq![(ch, gain)],
                None => Seq::<(Channel, i16)>::empty(),
            }
        } else {
            Seq::<(Channel, i16)>::empty()
        }));
        bit = bit + 1;
    }
}

fn rendering_count(layout: u8) -> (n: usize)
    ensures
        n == (match spec_rendering_channels(layout) {
            Some(c) => c.len(),
            None => 0,
        }),
{
    match rendering_channels(layout) {
        Some(c) => c.len(),
        None => 0,
    }
}

/// Plans the reconstruction of channel layers for a playback sound
/// system. No layers makes the descriptors invalid; an expanded layout or
/// a layout above 8 is not implemented. `force_highest` decodes every
/// layer whatever the target (binaural output with HRTF rendering).
pub fn plan_layers(layers: &[ChannelAudioLayer], target: SoundSystem, force_highest: bool) -> (r: Result<LayerPlan, DecodeError>)
    ensures
        match r {
            Ok(plan) => {
                &&& layers@.len() > 0
                &&& forall|k: int| 0 <= k < layers@.len() ==> #[trigger] layer_supported(layers@[k])
                &&& plan.layer < layers@.len()
                &&& selected_layer(layers@, target, force_highest, plan.layer as int)
                &&& plan.layout == layers@[plan.layer as int].loudspeaker_layout
                &&& plan.channels_in@ == channels_upto(layers@, plan.layer + 1)
                &&& plan.output_gains@ == gains_upto(layers@, plan.layer + 1)
                &&& plan.default_recon == (if plan.layer > 0 {
                    Some(spec_default_recon_flags(layers@[0].loudspeaker_layout, plan.layout))
                } else {
                    None
                })
            },
            Err(e) => {
                ||| layers@.len() == 0 && (e matches DecodeError::InvalidDescriptors(m) && m@ == "no channel layers"@)
                ||| layers@.len() > 0 && (exists|k: int| 0 <= k < layers@.len() && !#[trigger] layer_supported(layers@[k]))
                    && e == DecodeError::Unimplemented("expanded/binaural loudspeaker layouts")
            },
        },
{
    if layers.len() == 0 {
        return Err(DecodeError::InvalidDescriptors("no channel layers".to_owned()));
    }
    let mut k: usize = 0;
    while k < layers.len()
        invariant
            k <= layers@.len(),
            forall|j: int| 0 <= j < k ==> #[trigger] layer_supported(layers@[j]),
        decreases layers.len() - k,
    {
        if layers[k].expanded_loudspeaker_layout.is_some() || layers[k].loudspeaker_layout > 8 {
            assert(!layer_supported(layers@[k as int]));
            return Err(DecodeError::Unimplemented("expanded/binaural loudspeaker layouts"));
        }
        k = k + 1;
    }
    let selection_target = if target == SoundSystem::Binaural {
        SoundSystem::A
    } else {
        target
    };
    let mut selected: usize = layers.len() - 1;
    if !force_highest {
        let mut exact: Option<usize> = None;
        let mut i: usize = 0;
        while i < layers.len()
            invariant_except_break
                exact is None,
            invariant
                i <= layers@.len(),
                selection_target == (if target == SoundSystem::Binaural { SoundSystem::A } else { target }),
                forall|j: int| 0 <= j < i ==> !#[trigger] layer_matches(layers@, j, target),
            ensures
                match exact {
                    Some(e) => e < layers@.len() && layer_matches(layers@, e as int, target) && forall|j: int|
                        0 <= j < e ==> !#[trigger] layer_matches(layers@, j, target),
                    None => forall|j: int| 0 <= j < layers@.len() ==> !#[trigger] layer_matches(layers@, j, target),
                },
            decreases layers.len() - i,
        {
            if loudspeaker_sound_system(layers[i].loudspeaker_layout) == Some(selection_target) {
                exact = Some(i);
                break;
            }
            i = i + 1;
        }
        match exact {
            Some(e) => {
                selected = e;
            },
            None => {
                if layers.len() > 1 {
                    let playback_channels = target.channels();
                    let mut i: usize = 0;
                    while i < layers.len()
                        invariant_except_break
                            selected == layers@.len() - 1,
                        invariant
                            i <= layers@.len(),
                            playback_channels == target.spec_channels(),
                            forall|j: int| 0 <= j < i ==> !#[trigger] layer_exceeds(layers@, j, target),
                        ensures
                            selected < layers@.len(),
                            (layer_exceeds(layers@, selected as int, target) && forall|j: int|
                                0 <= j < selected ==> !#[trigger] layer_exceeds(layers@, j, target))
                            || (selected == layers@.len() - 1 && forall|j: int|
                                0 <= j < layers@.len() ==> !#[trigger] layer_exceeds(layers@, j, target)),
                        decreases layers.len() - i,
                    {
                        if rendering_count(layers[i].loudspeaker_layout) > playback_channels {
                            selected = i;
                            break;
                        }
                        i = i + 1;
                    }
                }
            },
        }
    }
    let mut channels_in: Vec<Channel> = Vec::new();
    let mut output_gains: Vec<(Channel, i16)> = Vec::new();
    let mut last: Option<u8> = None;
    let mut n: usize = 0;
    while n <= selected
        invariant
            selected < layers@.len(),
            n <= selected + 1,
            channels_in@ == channels_upto(layers@, n as int),
            output_gains@ == gains_upto(layers@, n as int),
            last == (if n == 0 { None } else { Some(layers@[n - 1].loudspeaker_layout) }),
        decreases selected + 1 - n,
    {
        let layer = layers[n];
        let added = new_channels(last, layer.loudspeaker_layout);
        let mut added = added;
        channels_in.append(&mut added);
        match layer.output_gain {
            Some((flags, gain)) => {
                layer_output_gains(&mut output_gains, layer.loudspeaker_layout, flags, gain);
            },
            None => {},
        }
        last = Some(layer.loudspeaker_layout);
        n = n + 1;
    }
    let layout = layers[selected].loudspeaker_layout;
    let default_recon = if selected > 0 {
        Some(default_recon_flags(layers[0].loudspeaker_layout, layout))
    } else {
        None
    };
    Ok(LayerPlan { layer: selected, layout, channels_in, output_gains, default_recon })
}

} // verus!
