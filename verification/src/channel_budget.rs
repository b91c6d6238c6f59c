//! What the profile filter's channel budget counts: decoded channels,
//! one per substream and one more per coupled substream.

use vstd::prelude::*;

use crate::descriptors::{ChannelAudioLayer, SpecAudioElement, SpecAudioElementConfig, SpecCodecConfig, SpecMixPresentation, SpecSubMix};
use crate::profile::{apply_budgets, filter_elements, mix_channels, referenced, spec_element_channels, spec_filter_profiles, sum_u8};

verus! {

/// Channels a stream group decodes to: every substream carries one, a
/// coupled one two.
pub open spec fn group_decoded(substreams: u8, coupled: u8) -> nat {
    substreams as nat + if coupled < substreams {
        coupled as nat
    } else {
        substreams as nat
    }
}

/// Channels the first `n` layers decode to.
pub open spec fn layers_decoded(layers: Seq<ChannelAudioLayer>, n: nat) -> nat
    decreases n,
{
    if n == 0 {
        0
    } else {
        layers_decoded(layers, (n - 1) as nat) + group_decoded(layers[n - 1].substream_count, layers[n - 1].coupled_substream_count)
    }
}

/// Channels an element decodes to.
pub open spec fn element_decoded(e: SpecAudioElement) -> nat {
    match e.config {
        SpecAudioElementConfig::ChannelBased { layers } => layers_decoded(layers, layers.len()),
        SpecAudioElementConfig::AmbisonicsMono { substream_count, .. } => substream_count as nat,
        SpecAudioElementConfig::AmbisonicsProjection { substream_count, coupled_substream_count, .. } => group_decoded(
            substream_count,
            coupled_substream_count,
        ),
    }
}

proof fn lemma_sum_prefix(a: Seq<u8>, b: Seq<u8>, k: nat)
    requires
        k <= a.len(),
    ensures
        sum_u8(a + b, k) == sum_u8(a, k),
    decreases k,
{
    if k > 0 {
        lemma_sum_prefix(a, b, (k - 1) as nat);
        assert((a + b)[k - 1] == a[k - 1]);
    }
}

proof fn lemma_sum_concat(a: Seq<u8>, b: Seq<u8>, n: nat)
    requires
        n <= b.len(),
    ensures
        sum_u8(a + b, a.len() + n) == sum_u8(a, a.len()) + sum_u8(b, n),
    decreases n,
{
    if n == 0 {
        lemma_sum_prefix(a, b, a.len());
    } else {
        lemma_sum_concat(a, b, (n - 1) as nat);
        assert((a + b)[a.len() + n - 1] == b[n - 1]);
    }
}

proof fn lemma_sum_group(substreams: u8, coupled: u8, n: nat)
    requires
        n <= substreams,
    ensures
        sum_u8(crate::element::spec_group(substreams, coupled), n) == n + if coupled < n {
            coupled as nat
        } else {
            n
        },
    decreases n,
{
    if n > 0 {
        lemma_sum_group(substreams, coupled, (n - 1) as nat);
    }
}

proof fn lemma_layers_decoded(layers: Seq<ChannelAudioLayer>, n: nat)
    requires
        n <= layers.len(),
    ensures
        sum_u8(crate::element::spec_layers_channels(layers, n), crate::element::spec_layers_channels(layers, n).len())
            == layers_decoded(layers, n),
    decreases n,
{
    if n > 0 {
        lemma_layers_decoded(layers, (n - 1) as nat);
        let a = crate::element::spec_layers_channels(layers, (n - 1) as nat);
        let g = crate::element::spec_group(layers[n - 1].substream_count, layers[n - 1].coupled_substream_count);
        lemma_sum_concat(a, g, g.len());
        lemma_sum_group(layers[n - 1].substream_count, layers[n - 1].coupled_substream_count, g.len());
    }
}

/// The channel budget counts decoded channels: an element counts one
/// channel per substream plus one more per coupled substream.
pub proof fn lemma_element_channels_decoded(e: SpecAudioElement)
    ensures
        spec_element_channels(e) == element_decoded(e),
{
    match e.config {
        SpecAudioElementConfig::ChannelBased { layers } => {
            lemma_layers_decoded(layers, layers.len());
        },
        SpecAudioElementConfig::AmbisonicsMono { substream_count, .. } => {
            lemma_sum_group(substream_count, 0, substream_count as nat);
        },
        SpecAudioElementConfig::AmbisonicsProjection { substream_count, coupled_substream_count, .. } => {
            lemma_sum_group(substream_count, coupled_substream_count, substream_count as nat);
        },
    }
}

/// Channels the first `n` elements of the sub-mix decode to.
pub open spec fn mix_decoded(elements: Seq<SpecAudioElement>, sub: SpecSubMix, n: nat) -> nat
    decreases n,
{
    if n == 0 {
        0
    } else {
        mix_decoded(elements, sub, (n - 1) as nat) + element_decoded(referenced(elements, sub, n - 1)->0)
    }
}

proof fn lemma_mix_decoded(elements: Seq<SpecAudioElement>, sub: SpecSubMix, n: nat)
    ensures
        mix_channels(elements, sub, n) == mix_decoded(elements, sub, n),
    decreases n,
{
    if n > 0 {
        lemma_mix_decoded(elements, sub, (n - 1) as nat);
        lemma_element_channels_decoded(referenced(elements, sub, n - 1)->0);
    }
}

/// A mix whose elements decode to more than 16 channels is never
/// supported by simple, more than 18 never by base, and more than 28
/// never by base-enhanced.
pub proof fn lemma_channel_budgets(
    mix: SpecMixPresentation,
    elements: Seq<SpecAudioElement>,
    configs: Seq<SpecCodecConfig>,
    requested: u8,
)
    ensures
        mix.sub_mixes.len() == 1 ==> {
            let sub = mix.sub_mixes[0];
            let total = mix_decoded(elements, sub, sub.elements.len());
            &&& total > 16 ==> spec_filter_profiles(mix, elements, configs, requested) & 1 == 0
            &&& total > 18 ==> spec_filter_profiles(mix, elements, configs, requested) & 2 == 0
            &&& total > 28 ==> spec_filter_profiles(mix, elements, configs, requested) & 4 == 0
        },
{
    if mix.sub_mixes.len() == 1 {
        let sub = mix.sub_mixes[0];
        lemma_mix_decoded(elements, sub, sub.elements.len());
        let p = filter_elements(elements, sub, sub.elements.len(), requested);
        let ne = sub.elements.len();
        let nc = mix_channels(elements, sub, ne);
        let p1 = if ne > 1 { p & !1u8 } else { p };
        let p2 = if ne > 2 { p1 & !2u8 } else { p1 };
        let p3 = if ne > 28 { p2 & !4u8 } else { p2 };
        let p4 = if nc > 16 { p3 & !1u8 } else { p3 };
        let p5 = if nc > 18 { p4 & !2u8 } else { p4 };
        let p6 = if nc > 28 { p5 & !4u8 } else { p5 };
        assert(apply_budgets(p, ne, nc) == p6);
        assert(forall|x: u8| #![auto] (x & !1u8) & 1 == 0 && (x & !2u8) & 2 == 0 && (x & !4u8) & 4 == 0) by (bit_vector);
        assert(forall|x: u8, m: u8| #![auto] x & 1 == 0 ==> (x & m) & 1 == 0) by (bit_vector);
        assert(forall|x: u8, m: u8| #![auto] x & 2 == 0 ==> (x & m) & 2 == 0) by (bit_vector);
        assert(0u8 & 1 == 0 && 0u8 & 2 == 0 && 0u8 & 4 == 0) by (bit_vector);
    }
}

} // verus!
