//! Profile capability filtering.
//!
//! Each mix presentation is checked against the *limits* of every
//! requested profile (element types, layer layouts, sub-mix counts,
//! codec-config rules, element/channel budgets); a mix is decodable when at
//! least one requested profile supports it.

use vstd::prelude::*;

use crate::descriptors::{
    codec_config_index, element_index, find_codec_config, find_element, AudioElement, AudioElementConfig, ChannelAudioLayer,
    CodecConfig, MixPresentation, SpecAudioElement, SpecAudioElementConfig, SpecCodecConfig,
    SpecMixPresentation, SpecSubMix, SubMix, EXPANDED_LAYOUT,
};
use crate::element::{spec_substream_channels, substream_channels};
use crate::reader::views;

verus! {

/// The IAMF v1.1 profiles: simple (bit 0), base (bit 1), base-enhanced
/// (bit 2).
#[derive(Debug, Clone, Copy, PartialEq, Eq, Structural)]
pub struct ProfileSet(u8);

/// The bit of an IA sequence header profile number (0 = simple, 1 = base,
/// 2 = base-enhanced); none for other numbers.
pub open spec fn profile_bit(profile: u8) -> u8 {
    if profile == 0 {
        1u8
    } else if profile == 1 {
        2u8
    } else if profile == 2 {
        4u8
    } else {
        0u8
    }
}

impl ProfileSet {
    /// Only the three profile bits are ever set.
    #[verifier::type_invariant]
    spec fn within_profiles(self) -> bool {
        self.0 < 8
    }

    /// The simple profile alone.
    pub fn simple() -> (p: Self)
        ensures
            p.bits() == 1,
    {
        ProfileSet(1)
    }

    /// The base profile alone.
    pub fn base() -> (p: Self)
        ensures
            p.bits() == 2,
    {
        ProfileSet(2)
    }

    /// The base-enhanced profile alone.
    pub fn base_enhanced() -> (p: Self)
        ensures
            p.bits() == 4,
    {
        ProfileSet(4)
    }

    /// The profile bits.
    pub closed spec fn bits(&self) -> u8 {
        self.0
    }

    pub fn all() -> (p: Self)
        ensures
            p.bits() == 7,
    {
        ProfileSet(0b111)
    }

    pub fn empty() -> (p: Self)
        ensures
            p.bits() == 0,
    {
        ProfileSet(0)
    }

    pub fn is_empty(self) -> (b: bool)
        ensures
            b == (self.bits() == 0),
            self.bits() < 8,
    {
        proof {
            use_type_invariant(&self);
        }
        self.0 == 0
    }

    pub fn union(self, other: ProfileSet) -> (p: Self)
        ensures
            p.bits() == self.bits() | other.bits(),
            self.bits() < 8,
            other.bits() < 8,
    {
        proof {
            use_type_invariant(&self);
            use_type_invariant(&other);
            let (a, b) = (self.0, other.0);
            assert(a | b < 8) by (bit_vector)
                requires
                    a < 8,
                    b < 8,
            ;
        }
        ProfileSet(self.0 | other.0)
    }

    pub fn intersects(self, other: ProfileSet) -> (b: bool)
        ensures
            b == (self.bits() & other.bits() != 0),
            self.bits() < 8,
            other.bits() < 8,
    {
        proof {
            use_type_invariant(&self);
            use_type_invariant(&other);
        }
        self.0 & other.0 != 0
    }

    /// From an IA sequence header profile number (0 = simple, 1 = base,
    /// 2 = base-enhanced); unknown numbers map to the empty set.
    pub fn from_profile_number(profile: u8) -> (p: Self)
        ensures
            p.bits() == profile_bit(profile),
    {
        match profile {
            0 => ProfileSet(1),
            1 => ProfileSet(2),
            2 => ProfileSet(4),
            _ => ProfileSet(0),
        }
    }

    fn remove(&mut self, other: ProfileSet)
        ensures
            final(self).bits() == old(self).bits() & !other.bits(),
    {
        proof {
            use_type_invariant(&*self);
            let (a, b) = (self.0, other.0);
            assert(a & !b < 8) by (bit_vector)
                requires
                    a < 8,
            ;
        }
        self.0 = self.0 & !other.0;
    }

    /// From the C interface's numbering: bit 0 = simple, bit 1 = base,
    /// bit 2 = base-enhanced. Unknown high bits are ignored; an empty mask
    /// means "no constraint" and resolves to all known profiles.
    pub fn from_bits(bits: u32) -> (p: Self)
        ensures
            p.bits() == (if bits & 7 == 0 {
                7u8
            } else {
                (bits & 7) as u8
            }),
    {
        assert(bits & 7 < 8) by (bit_vector);
        let known = (bits & 0b111) as u8;
        assert(known < 8);
        if known == 0 {
            ProfileSet(0b111)
        } else {
            ProfileSet(known)
        }
    }
}

/// Union of profile sets is commutative, associative and idempotent, has
/// the empty set as identity and the full set as absorbing element; two
/// sets intersect exactly when they share one of the three profiles, the
/// empty set intersects nothing and the full set every non-empty set.
pub proof fn lemma_profile_set_algebra(a: ProfileSet, b: ProfileSet, c: ProfileSet)
    requires
        a.bits() < 8,
        b.bits() < 8,
        c.bits() < 8,
    ensures
        a.bits() | b.bits() == b.bits() | a.bits(),
        a.bits() | (b.bits() | c.bits()) == (a.bits() | b.bits()) | c.bits(),
        a.bits() | a.bits() == a.bits(),
        a.bits() | 0u8 == a.bits(),
        a.bits() | 7u8 == 7u8,
        (a.bits() & b.bits() != 0) == (b.bits() & a.bits() != 0),
        (a.bits() & b.bits() != 0) == ((a.bits() & 1u8 != 0 && b.bits() & 1u8 != 0) || (a.bits() & 2u8 != 0
            && b.bits() & 2u8 != 0) || (a.bits() & 4u8 != 0 && b.bits() & 4u8 != 0)),
        a.bits() & 0u8 == 0,
        (a.bits() & 7u8 != 0) == (a.bits() != 0),
{
    let (x, y, z) = (a.bits(), b.bits(), c.bits());
    assert({
        &&& x | y == y | x
        &&& x | (y | z) == (x | y) | z
        &&& x | x == x
        &&& x | 0u8 == x
        &&& x | 7u8 == 7u8
        &&& (x & y != 0) == (y & x != 0)
        &&& (x & y != 0) == ((x & 1u8 != 0 && y & 1u8 != 0) || (x & 2u8 != 0 && y & 2u8 != 0) || (x & 4u8 != 0
            && y & 4u8 != 0))
        &&& x & 0u8 == 0
        &&& (x & 7u8 != 0) == (x != 0)
    }) by (bit_vector)
        requires
            x < 8,
            y < 8,
            z < 8,
    ;
}

impl Default for ProfileSet {
    fn default() -> (p: Self)
        ensures
            p.bits() == 7,
    {
        ProfileSet(0b111)
    }
}

/// Total decoded channels of an element.
pub open spec fn spec_element_channels(e: SpecAudioElement) -> nat {
    let chs = spec_substream_channels(e.config);
    sum_u8(chs, chs.len())
}

/// Sum of the first `n` entries.
pub open spec fn sum_u8(s: Seq<u8>, n: nat) -> nat
    decreases n,
{
    if n == 0 || n > s.len() {
        0
    } else {
        sum_u8(s, (n - 1) as nat) + s[n - 1] as nat
    }
}

/// Decoded channel count of one element (the channels of all its
/// substreams), saturating at `usize::MAX`.
fn element_channels(element: &AudioElement) -> (n: usize)
    ensures
        n == (if spec_element_channels(element@) > usize::MAX {
            usize::MAX as nat
        } else {
            spec_element_channels(element@)
        }),
{
    let chs = substream_channels(&element.config);
    let mut total: usize = 0;
    let mut i: usize = 0;
    while i < chs.len()
        invariant
            i <= chs@.len(),
            chs@ == spec_substream_channels(element.config@),
            total == (if sum_u8(chs@, i as nat) > usize::MAX {
                usize::MAX as nat
            } else {
                sum_u8(chs@, i as nat)
            }),
        decreases chs.len() - i,
    {
        total = total.saturating_add(chs[i] as usize);
        i = i + 1;
    }
    total
}

/// Iamf-tools `FilterProfilesForAudioElement`: the profiles left of `p`
/// (as bits) after the element's limits: a channel-based element without
/// layers, or whose first layer is reserved (10..=14, 16..), supports none;
/// layouts 0..=9 fit every profile; an expanded layout (15) excludes simple
/// and base, and base-enhanced too unless its expanded layout is 0..=12.
/// Ambisonics fit every profile.
pub open spec fn spec_filter_element(e: SpecAudioElement, p: u8) -> u8 {
    match e.config {
        SpecAudioElementConfig::ChannelBased { layers } => if layers.len() == 0 {
            0
        } else {
            let first = layers[0];
            if first.loudspeaker_layout <= 9 {
                p
            } else if first.loudspeaker_layout == EXPANDED_LAYOUT {
                let q = p & !3u8;
                match first.expanded_loudspeaker_layout {
                    Some(x) => if x <= 12 {
                        q
                    } else {
                        q & !4u8
                    },
                    None => q & !4u8,
                }
            } else {
                0
            }
        },
        _ => p,
    }
}

/// Iamf-tools `FilterProfilesForAudioElement`: erases profiles whose limits
/// the element exceeds.
fn filter_audio_element(element: &AudioElement, profiles: &mut ProfileSet)
    ensures
        final(profiles).bits() == spec_filter_element(element@, old(profiles).bits()),
{
    match &element.config {
        AudioElementConfig::ChannelBased { layers } => {
            if layers.len() == 0 {
                *profiles = ProfileSet::empty();
                return;
            }
            let first = &layers[0];
            if first.loudspeaker_layout <= 9 {
                // Mono through binaural: allowed in every profile.
            } else if first.loudspeaker_layout == EXPANDED_LAYOUT {
                // Expanded: never in simple/base; base-enhanced supports
                // expanded layouts 0..=12; 13..=19 arrived with the v2 draft
                // profiles and 20+ are reserved.
                assert(1u8 | 2u8 == 3u8) by (bit_vector);
                profiles.remove(ProfileSet::simple().union(ProfileSet::base()));
                match first.expanded_loudspeaker_layout {
                    Some(x) if x <= 12 => {},
                    _ => profiles.remove(ProfileSet::base_enhanced()),
                }
            } else {
                // 10..=14 are reserved in v1.1.
                *profiles = ProfileSet::empty();
            }
        },
        // MONO and PROJECTION ambisonics are allowed in every profile.
        AudioElementConfig::AmbisonicsMono { .. } | AudioElementConfig::AmbisonicsProjection { .. } => {},
    }
}

/// The element a sub-mix element refers to, if any.
pub open spec fn referenced(elements: Seq<SpecAudioElement>, sub: SpecSubMix, i: int) -> Option<SpecAudioElement> {
    match element_index(elements, sub.elements[i].audio_element_id) {
        Some(k) => Some(elements[k]),
        None => None,
    }
}

/// Every element of the sub-mix exists, and so does its codec config.
pub open spec fn all_resolved(elements: Seq<SpecAudioElement>, configs: Seq<SpecCodecConfig>, sub: SpecSubMix) -> bool {
    forall|i: int|
        0 <= i < sub.elements.len() ==> (#[trigger] referenced(elements, sub, i) matches Some(e)
            && codec_config_index(configs, e.codec_config_id) is Some)
}

/// The sub-mix's elements all use one codec config (and there is at least
/// one element).
pub open spec fn single_codec(elements: Seq<SpecAudioElement>, sub: SpecSubMix) -> bool {
    &&& sub.elements.len() >= 1
    &&& forall|i: int|
        0 <= i < sub.elements.len() ==> (#[trigger] referenced(elements, sub, i))->0.codec_config_id == referenced(
            elements,
            sub,
            0,
        )->0.codec_config_id
}

/// Profile bits left after filtering by the first `n` elements of the
/// sub-mix.
pub open spec fn filter_elements(elements: Seq<SpecAudioElement>, sub: SpecSubMix, n: nat, p: u8) -> u8
    decreases n,
{
    if n == 0 {
        p
    } else {
        spec_filter_element(referenced(elements, sub, n - 1)->0, filter_elements(elements, sub, (n - 1) as nat, p))
    }
}

/// Channels of the first `n` elements of the sub-mix.
pub open spec fn mix_channels(elements: Seq<SpecAudioElement>, sub: SpecSubMix, n: nat) -> nat
    decreases n,
{
    if n == 0 {
        0
    } else {
        mix_channels(elements, sub, (n - 1) as nat) + spec_element_channels(referenced(elements, sub, n - 1)->0)
    }
}

/// Profile bits after the element and channel budgets: more than 1
/// element excludes simple, more than 2 base, more than 28 base-enhanced;
/// more than 16 channels excludes simple, more than 18 base, more than 28
/// base-enhanced.
pub open spec fn apply_budgets(p: u8, num_elements: nat, num_channels: nat) -> u8 {
    let p1 = if num_elements > 1 { p & !1u8 } else { p };
    let p2 = if num_elements > 2 { p1 & !2u8 } else { p1 };
    let p3 = if num_elements > 28 { p2 & !4u8 } else { p2 };
    let p4 = if num_channels > 16 { p3 & !1u8 } else { p3 };
    let p5 = if num_channels > 18 { p4 & !2u8 } else { p4 };
    if num_channels > 28 { p5 & !4u8 } else { p5 }
}

/// Iamf-tools `ProfileFilter::FilterProfilesForMixPresentation`: the
/// requested profiles (as bits) that support the mix. A mix needs exactly
/// one sub-mix, no element with headphones rendering mode 2 or 3, every
/// referenced element and codec config present, and a single codec config;
/// then each element's limits and the element/channel budgets apply.
pub open spec fn spec_filter_profiles(
    mix: SpecMixPresentation,
    elements: Seq<SpecAudioElement>,
    configs: Seq<SpecCodecConfig>,
    requested: u8,
) -> u8 {
    if mix.sub_mixes.len() != 1 {
        0
    } else {
        let sub = mix.sub_mixes[0];
        if exists|i: int| 0 <= i < sub.elements.len() && #[trigger] sub.elements[i].headphones_rendering_mode >= 2 {
            0
        } else if !all_resolved(elements, configs, sub) || !single_codec(elements, sub) {
            0
        } else {
            apply_budgets(
                filter_elements(elements, sub, sub.elements.len(), requested),
                sub.elements.len(),
                mix_channels(elements, sub, sub.elements.len()),
            )
        }
    }
}

proof fn lemma_filter_zero(e: SpecAudioElement)
    ensures
        spec_filter_element(e, 0) == 0,
{
    assert(0u8 & !3u8 == 0) by (bit_vector);
    assert((0u8 & !3u8) & !4u8 == 0) by (bit_vector);
}

proof fn lemma_filter_elements_zero(elements: Seq<SpecAudioElement>, sub: SpecSubMix, k: nat, m: nat, p: u8)
    requires
        k <= m,
        filter_elements(elements, sub, k, p) == 0,
    ensures
        filter_elements(elements, sub, m, p) == 0,
    decreases m,
{
    if m > k {
        lemma_filter_elements_zero(elements, sub, k, (m - 1) as nat, p);
        lemma_filter_zero(referenced(elements, sub, m - 1)->0);
    }
}

proof fn lemma_budgets_zero(ne: nat, nc: nat)
    ensures
        apply_budgets(0, ne, nc) == 0,
{
    assert(0u8 & !1u8 == 0) by (bit_vector);
    assert(0u8 & !2u8 == 0) by (bit_vector);
    assert(0u8 & !4u8 == 0) by (bit_vector);
}

/// Whether some element of the sub-mix asks for headphones rendering mode 2
/// (head-locked binaural) or 3 (reserved), which no v1.1 profile supports.
fn has_unsupported_rendering(sub: &SubMix) -> (b: bool)
    ensures
        b == exists|i: int|
            0 <= i < sub@.elements.len() && #[trigger] sub@.elements[i].headphones_rendering_mode >= 2,
{
    let n = sub.elements.len();
    let mut i: usize = 0;
    while i < n
        invariant
            i <= n,
            n == sub@.elements.len(),
            forall|j: int| 0 <= j < i ==> #[trigger] sub@.elements[j].headphones_rendering_mode < 2,
        decreases n - i,
    {
        assert(sub@.elements[i as int] == sub.elements[i as int]@);
        if sub.elements[i].headphones_rendering_mode >= 2 {
            assert(sub@.elements[i as int].headphones_rendering_mode >= 2);
            return true;
        }
        i = i + 1;
    }
    false
}

/// Whether every element of the sub-mix and its codec config are present,
/// and the sub-mix uses exactly one codec config.
#[verifier::rlimit(50)]
fn resolves_to_single_codec(sub: &SubMix, elements: &[AudioElement], codec_configs: &[CodecConfig]) -> (b: bool)
    ensures
        b == (all_resolved(views(elements@), views(codec_configs@), sub@) && single_codec(views(elements@), sub@)),
{
    let ghost es = views(elements@);
    let ghost cs = views(codec_configs@);
    let ghost ssub = sub@;
    let n = sub.elements.len();
    let mut first: u32 = 0;
    let mut i: usize = 0;
    while i < n
        invariant
            i <= n,
            n == ssub.elements.len(),
            ssub == sub@,
            es == views(elements@),
            cs == views(codec_configs@),
            forall|j: int| 0 <= j < i ==> (#[trigger] referenced(es, ssub, j) matches Some(e)
                && codec_config_index(cs, e.codec_config_id) is Some && e.codec_config_id == first),
            i > 0 ==> first == referenced(es, ssub, 0)->0.codec_config_id,
        decreases n - i,
    {
        assert(ssub.elements[i as int] == sub.elements[i as int]@);
        let k = match find_element(elements, sub.elements[i].audio_element_id) {
            Some(k) => k,
            None => {
                assert(!all_resolved(es, cs, ssub)) by {
                    assert(referenced(es, ssub, i as int) is None);
                }
                return false;
            },
        };
        let codec_id = elements[k].codec_config_id;
        assert(referenced(es, ssub, i as int) == Some(es[k as int]));
        if find_codec_config(codec_configs, codec_id).is_none() {
            assert(!all_resolved(es, cs, ssub)) by {
                assert(referenced(es, ssub, i as int) == Some(es[k as int]));
            }
            return false;
        }
        if i == 0 {
            first = codec_id;
        } else if codec_id != first {
            assert(!single_codec(es, ssub)) by {
                assert(referenced(es, ssub, i as int)->0.codec_config_id != referenced(es, ssub, 0)->0.codec_config_id);
            }
            return false;
        }
        i = i + 1;
    }
    if n == 0 {
        return false;
    }
    assert(all_resolved(es, cs, ssub));
    assert(single_codec(es, ssub)) by {
        assert forall|j: int| 0 <= j < ssub.elements.len() implies (#[trigger] referenced(es, ssub, j))->0.codec_config_id
            == referenced(es, ssub, 0)->0.codec_config_id by {
            assert(referenced(es, ssub, j) is Some);
            assert(referenced(es, ssub, 0) is Some);
        }
    }
    true
}

/// Applies each element's limits to `requested` and counts the decoded
/// channels of the sub-mix (saturating); the count is only meaningful when
/// some profile is left.
fn filter_sub_mix_elements(sub: &SubMix, elements: &[AudioElement], requested: ProfileSet) -> (r: (ProfileSet, usize))
    requires
        forall|j: int| 0 <= j < sub@.elements.len() ==> #[trigger] referenced(views(elements@), sub@, j) is Some,
    ensures
        r.0.bits() == filter_elements(views(elements@), sub@, sub@.elements.len(), requested.bits()),
        r.0.bits() != 0 ==> r.1 == (if mix_channels(views(elements@), sub@, sub@.elements.len()) > usize::MAX {
            usize::MAX as nat
        } else {
            mix_channels(views(elements@), sub@, sub@.elements.len())
        }),
{
    let ghost es = views(elements@);
    let ghost ssub = sub@;
    let n = sub.elements.len();
    let mut profiles = requested;
    let mut num_channels: usize = 0;
    let mut i: usize = 0;
    while i < n
        invariant
            i <= n,
            n == ssub.elements.len(),
            ssub == sub@,
            es == views(elements@),
            forall|j: int| 0 <= j < n ==> #[trigger] referenced(es, ssub, j) is Some,
            profiles.bits() == filter_elements(es, ssub, i as nat, requested.bits()),
            num_channels == (if mix_channels(es, ssub, i as nat) > usize::MAX {
                usize::MAX as nat
            } else {
                mix_channels(es, ssub, i as nat)
            }),
        decreases n - i,
    {
        assert(ssub.elements[i as int] == sub.elements[i as int]@);
        let k = match find_element(elements, sub.elements[i].audio_element_id) {
            Some(k) => k,
            None => {
                assert(referenced(es, ssub, i as int) is Some);
                return (ProfileSet::empty(), 0);
            },
        };
        assert(referenced(es, ssub, i as int) == Some(es[k as int]));
        filter_audio_element(&elements[k], &mut profiles);
        if profiles.is_empty() {
            proof {
                lemma_filter_elements_zero(es, ssub, (i + 1) as nat, n as nat, requested.bits());
            }
            return (profiles, num_channels);
        }
        num_channels = num_channels.saturating_add(element_channels(&elements[k]));
        i = i + 1;
    }
    (profiles, num_channels)
}

/// Iamf-tools `ProfileFilter::FilterProfilesForMixPresentation`: returns the
/// subset of `requested` profiles that support this mix presentation.
/// Elements referenced by the mix but missing from `elements`, or codec
/// configs missing from `codec_configs`, yield an empty set.
pub fn filter_profiles_for_mix(
    mix: &MixPresentation,
    elements: &[AudioElement],
    codec_configs: &[CodecConfig],
    requested: ProfileSet,
) -> (p: ProfileSet)
    ensures
        p.bits() == spec_filter_profiles(mix@, views(elements@), views(codec_configs@), requested.bits()),
{
    // Sub-mix count: v1.1 profiles all require exactly one.
    if mix.sub_mixes.len() != 1 {
        return ProfileSet::empty();
    }
    let sub = &mix.sub_mixes[0];
    assert(mix@.sub_mixes[0] == sub@);

    // headphones_rendering_mode: 0 and 1 are v1.1; 2 (head-locked binaural)
    // and 3 (reserved) are not supported by any v1.1 profile.
    if has_unsupported_rendering(sub) {
        return ProfileSet::empty();
    }

    // Codec-config rules: the first sub-mix must use exactly one codec
    // config under every v1.1 profile, which also pins a single frame size
    // and sample rate.
    if !resolves_to_single_codec(sub, elements, codec_configs) {
        return ProfileSet::empty();
    }

    // Per-element limits, plus element/channel budgets across the mix.
    let (mut profiles, num_channels) = filter_sub_mix_elements(sub, elements, requested);
    if profiles.is_empty() {
        proof {
            lemma_budgets_zero(sub@.elements.len(), mix_channels(views(elements@), sub@, sub@.elements.len()));
        }
        return profiles;
    }
    let num_elements = sub.elements.len();
    if num_elements > 1 {
        profiles.remove(ProfileSet::simple());
    }
    if num_elements > 2 {
        profiles.remove(ProfileSet::base());
    }
    if num_elements > 28 {
        profiles.remove(ProfileSet::base_enhanced());
    }
    if num_channels > 16 {
        profiles.remove(ProfileSet::simple());
    }
    if num_channels > 18 {
        profiles.remove(ProfileSet::base());
    }
    if num_channels > 28 {
        profiles.remove(ProfileSet::base_enhanced());
    }
    profiles
}

/// The codec config of the sub-mix's first element, if the element and the
/// config exist.
pub open spec fn spec_mix_codec_config(
    sub: SpecSubMix,
    elements: Seq<SpecAudioElement>,
    configs: Seq<SpecCodecConfig>,
) -> Option<SpecCodecConfig> {
    if sub.elements.len() == 0 {
        None
    } else {
        match referenced(elements, sub, 0) {
            None => None,
            Some(e) => match codec_config_index(configs, e.codec_config_id) {
                None => None,
                Some(k) => Some(configs[k]),
            },
        }
    }
}

/// The single codec config a supported mix resolves to (valid once
/// [`filter_profiles_for_mix`] returned non-empty for it).
pub fn mix_codec_config<'a>(
    sub_mix: &SubMix,
    elements: &[AudioElement],
    codec_configs: &'a [CodecConfig],
) -> (r: Option<&'a CodecConfig>)
    ensures
        (match r {
            Some(c) => Some(c@),
            None => None,
        }) == spec_mix_codec_config(sub_mix@, views(elements@), views(codec_configs@)),
{
    if sub_mix.elements.len() == 0 {
        return None;
    }
    assert(sub_mix@.elements[0] == sub_mix.elements[0]@);
    let k = match find_element(elements, sub_mix.elements[0].audio_element_id) {
        Some(k) => k,
        None => return None,
    };
    let c = match find_codec_config(codec_configs, elements[k].codec_config_id) {
        Some(c) => c,
        None => return None,
    };
    Some(&codec_configs[c])
}

/// `a` holds no profile outside `b`.
pub open spec fn within(a: u8, b: u8) -> bool {
    a & !b == 0
}

proof fn lemma_within_trans(a: u8, b: u8, c: u8)
    requires
        within(a, b),
        within(b, c),
    ensures
        within(a, c),
{
    assert(a & !b == 0 && b & !c == 0 ==> a & !c == 0) by (bit_vector);
}

proof fn lemma_mask_within(p: u8, m: u8)
    ensures
        within(p & m, p),
        within(p, p),
        within(0, p),
{
    assert((p & m) & !p == 0) by (bit_vector);
    assert(p & !p == 0) by (bit_vector);
    assert(0u8 & !p == 0) by (bit_vector);
}

proof fn lemma_filter_element_within(e: SpecAudioElement, p: u8)
    ensures
        within(spec_filter_element(e, p), p),
{
    lemma_mask_within(p, !3u8);
    lemma_mask_within(p & !3u8, !4u8);
    lemma_within_trans((p & !3u8) & !4u8, p & !3u8, p);
}

proof fn lemma_filter_elements_within(elements: Seq<SpecAudioElement>, sub: SpecSubMix, n: nat, p: u8)
    ensures
        within(filter_elements(elements, sub, n, p), p),
    decreases n,
{
    if n == 0 {
        lemma_mask_within(p, 0);
    } else {
        let prev = filter_elements(elements, sub, (n - 1) as nat, p);
        lemma_filter_elements_within(elements, sub, (n - 1) as nat, p);
        lemma_filter_element_within(referenced(elements, sub, n - 1)->0, prev);
        lemma_within_trans(filter_elements(elements, sub, n, p), prev, p);
    }
}

proof fn lemma_budgets_within(p: u8, ne: nat, nc: nat)
    ensures
        within(apply_budgets(p, ne, nc), p),
{
    let p1 = if ne > 1 { p & !1u8 } else { p };
    let p2 = if ne > 2 { p1 & !2u8 } else { p1 };
    let p3 = if ne > 28 { p2 & !4u8 } else { p2 };
    let p4 = if nc > 16 { p3 & !1u8 } else { p3 };
    let p5 = if nc > 18 { p4 & !2u8 } else { p4 };
    let p6 = if nc > 28 { p5 & !4u8 } else { p5 };
    lemma_mask_within(p, !1u8);
    lemma_mask_within(p1, !2u8);
    lemma_mask_within(p2, !4u8);
    lemma_mask_within(p3, !1u8);
    lemma_mask_within(p4, !2u8);
    lemma_mask_within(p5, !4u8);
    lemma_within_trans(p2, p1, p);
    lemma_within_trans(p3, p2, p);
    lemma_within_trans(p4, p3, p);
    lemma_within_trans(p5, p4, p);
    lemma_within_trans(p6, p5, p);
}

/// The profile filter only ever takes profiles away: the profiles that
/// support a mix are among those requested.
pub proof fn lemma_filter_within_requested(
    mix: SpecMixPresentation,
    elements: Seq<SpecAudioElement>,
    configs: Seq<SpecCodecConfig>,
    requested: u8,
)
    ensures
        within(spec_filter_profiles(mix, elements, configs, requested), requested),
{
    lemma_mask_within(requested, 0);
    if mix.sub_mixes.len() == 1 {
        let sub = mix.sub_mixes[0];
        let n = sub.elements.len();
        let filtered = filter_elements(elements, sub, n, requested);
        lemma_filter_elements_within(elements, sub, n, requested);
        lemma_budgets_within(filtered, n, mix_channels(elements, sub, n));
        lemma_within_trans(apply_budgets(filtered, n, mix_channels(elements, sub, n)), filtered, requested);
    }
}

/// A mix that some requested profile supports resolves to a codec config:
/// the one of its first element.
pub proof fn lemma_supported_mix_has_codec_config(
    mix: SpecMixPresentation,
    elements: Seq<SpecAudioElement>,
    configs: Seq<SpecCodecConfig>,
    requested: u8,
)
    requires
        spec_filter_profiles(mix, elements, configs, requested) != 0,
    ensures
        mix.sub_mixes.len() == 1,
        spec_mix_codec_config(mix.sub_mixes[0], elements, configs) is Some,
{
    let sub = mix.sub_mixes[0];
    assert(all_resolved(elements, configs, sub));
    assert(single_codec(elements, sub));
    assert(referenced(elements, sub, 0) is Some);
}

} // verus!
