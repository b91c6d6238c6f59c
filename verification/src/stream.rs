//! Decisions of the streaming decoder (configure from descriptors, push
//! byte chunks, pull temporal units): output format and channel order, mix presentation selection,
//! trimming, and the consistency checks on pushed data. The codec and
//! rendering stages that run between these decisions live with the
//! integrator.

use vstd::prelude::*;

use crate::decode_error::DecodeError;
use crate::descriptors::{
    codec_config_index, element_index, find_mix, mix_index, AudioElement, CodecConfig, DecoderConfig,
    ElementParam, Layout, MixPresentation, ParamDefinition, SequenceHeader, SpecAudioElement, SpecCodecConfig,
    SpecDecoderConfig, SpecElementParam, SpecMixPresentation, SpecParamDefinition, SpecSubMix, SpecSubMixElement,
    SubMix, SubMixElement,
};
use crate::element::{spec_substream_channels, substream_channels};
use crate::error::{decimal, format_number, format_two_numbers};
use crate::obu::{spec_parse_obu, Obu, ObuType, SpecObu};
use crate::params::MixGainAnimation;
use std::collections::VecDeque;
use crate::presentation::Descriptors;
use crate::profile::{filter_profiles_for_mix, profile_bit, spec_filter_profiles, ProfileSet};
use crate::reader::ByteReader;
use crate::layout::{spec_sound_system, SoundSystem};
use crate::reader::views;

verus! {

/// Output PCM encoding.
#[derive(Debug, Clone, Copy, PartialEq, Eq, Structural)]
#[non_exhaustive]
pub enum OutputSampleType {
    Int16LittleEndian,
    Int32LittleEndian,
}

impl OutputSampleType {
    pub fn bytes_per_sample(self) -> (n: usize)
        ensures
            n == (match self {
                OutputSampleType::Int16LittleEndian => 2usize,
                OutputSampleType::Int32LittleEndian => 4usize,
            }),
    {
        match self {
            OutputSampleType::Int16LittleEndian => 2,
            OutputSampleType::Int32LittleEndian => 4,
        }
    }
}

/// Output channel ordering.
#[derive(Debug, Clone, Copy, PartialEq, Eq, Structural)]
#[non_exhaustive]
pub enum ChannelOrdering {
    /// IAMF rendering order, as the sound systems define it.
    Iamf,
    /// Android AudioFormat / WAVE order.
    Android,
}

impl Default for ChannelOrdering {
    fn default() -> (o: Self)
        ensures
            o == ChannelOrdering::Iamf,
    {
        ChannelOrdering::Iamf
    }
}

/// Frame trimming control: disable when an
/// outer layer (e.g. an MP4 demuxer honoring edts/elst) trims instead.
/// Non-exhaustive: construct via `Default` and set fields.
#[derive(Debug, Clone, Copy, PartialEq, Eq, Structural)]
#[non_exhaustive]
pub struct TrimmingSettings {
    pub trim_beginning: bool,
    pub trim_end: bool,
}

impl Default for TrimmingSettings {
    fn default() -> (t: Self)
        ensures
            t.trim_beginning,
            t.trim_end,
    {
        TrimmingSettings { trim_beginning: true, trim_end: true }
    }
}

/// Mix presentation selection.
#[derive(Debug, Clone, Copy, PartialEq, Eq, Structural)]
#[non_exhaustive]
pub enum MixSelection {
    /// Prefer a mix presentation that declares a layout matching the
    /// requested output layout; fall back to the first supported.
    Auto,
    /// Select by mix_presentation_id. When no supported mix carries the id,
    /// selection proceeds as if unspecified.
    ById(u32),
    /// Select by position in the descriptors (must be supported).
    ByIndex(usize),
}

impl Default for MixSelection {
    fn default() -> (s: Self)
        ensures
            s == MixSelection::Auto,
    {
        MixSelection::Auto
    }
}

/// `0, 1, ..., n - 1`.
pub open spec fn identity_order(n: nat) -> Seq<usize> {
    Seq::new(n, |i: int| i as usize)
}

/// Output channel permutation for a target layout and ordering
///: entry i is the rendered-channel index
/// written to interleaved slot i. IAMF order is the identity; Android
/// order puts rears before sides for 7.1 layouts (I, J, 7.1.2) and has
/// its own orders for F, G and H.
pub open spec fn spec_output_permutation(target: SoundSystem, ordering: ChannelOrdering) -> Seq<usize> {
    let n = target.spec_channels();
    if ordering == ChannelOrdering::Iamf {
        identity_order(n)
    } else {
        match target {
            SoundSystem::I | SoundSystem::J | SoundSystem::Ext712 => identity_order(n).update(4, 6).update(
                6,
                4,
            ).update(5, 7).update(7, 5),
            SoundSystem::F => seq![1usize, 2, 0, 10, 7, 8, 5, 6, 9, 3, 4, 11],
            SoundSystem::G => seq![0usize, 1, 2, 3, 6, 7, 12, 13, 4, 5, 8, 9, 10, 11],
            SoundSystem::H => seq![
                0usize,
                1,
                2,
                3,
                4,
                5,
                6,
                7,
                8,
                10,
                11,
                15,
                12,
                14,
                13,
                16,
                20,
                17,
                18,
                19,
                22,
                21,
                23,
                9,
            ],
            _ => identity_order(n),
        }
    }
}

fn identity(n: usize) -> (v: Vec<usize>)
    ensures
        v@ == identity_order(n as nat),
{
    let mut v: Vec<usize> = Vec::new();
    let mut i: usize = 0;
    while i < n
        invariant
            i <= n,
            v@ == identity_order(i as nat),
        decreases n - i,
    {
        v.push(i);
        i = i + 1;
    }
    v
}

/// Output channel permutation for a target layout and ordering
///: entry i is the rendered-channel index
/// written to interleaved slot i.
pub fn output_permutation(target: SoundSystem, ordering: ChannelOrdering) -> (p: Vec<usize>)
    ensures
        p@ == spec_output_permutation(target, ordering),
{
    let channels = target.channels();
    if ordering == ChannelOrdering::Iamf {
        return identity(channels);
    }
    match target {
        // [L, R, C, LFE, Lss, Rss, Lrs, Rrs, ...]: Android wants rears
        // before sides.
        SoundSystem::I | SoundSystem::J | SoundSystem::Ext712 => {
            let mut p = identity(channels);
            p.set(4, 6);
            p.set(6, 4);
            p.set(5, 7);
            p.set(7, 5);
            p
        },
        // [C, L, R, LH, RH, LS, RS, LB, RB, CH, LFE1, LFE2]
        SoundSystem::F => vec![1, 2, 0, 10, 7, 8, 5, 6, 9, 3, 4, 11],
        // [L, R, C, LFE, Lss, Rss, Lrs, Rrs, Ltf, Rtf, Ltb, Rtb, Lsc, Rsc]
        SoundSystem::G => vec![0, 1, 2, 3, 6, 7, 12, 13, 4, 5, 8, 9, 10, 11],
        // Sound system H (9+10+3).
        SoundSystem::H => vec![
            0,
            1,
            2,
            3,
            4,
            5,
            6,
            7,
            8,
            10,
            11,
            15,
            12,
            14,
            13,
            16,
            20,
            17,
            18,
            19,
            22,
            21,
            23,
            9,
        ],
        // Everything else matches Android order already.
        _ => identity(channels),
    }
}

/// `p` is a permutation of `0..n`: `n` entries, each below `n`, no two
/// equal.
pub open spec fn is_permutation(p: Seq<usize>, n: nat) -> bool {
    &&& p.len() == n
    &&& forall|i: int| 0 <= i < n ==> #[trigger] p[i] < n
    &&& forall|i: int, j: int| 0 <= i < j < n ==> p[i] != p[j]
}

proof fn lemma_identity_is_permutation(n: nat)
    requires
        n <= usize::MAX,
    ensures
        is_permutation(identity_order(n), n),
{
    let p = identity_order(n);
    assert forall|i: int| 0 <= i < n implies #[trigger] p[i] == i by {}
}

/// A sequence below `n` that some `inv` undoes is a permutation.
proof fn lemma_left_inverse(p: Seq<usize>, inv: Seq<usize>, n: nat)
    requires
        p.len() == n,
        forall|i: int| 0 <= i < n ==> #[trigger] p[i] < n && inv[p[i] as int] == i,
    ensures
        is_permutation(p, n),
{
    assert forall|i: int, j: int| 0 <= i < j < n implies p[i] != p[j] by {
        if p[i] == p[j] {
            assert(inv[p[i] as int] == i);
            assert(inv[p[j] as int] == j);
        }
    }
}

proof fn lemma_android_f_is_permutation()
    ensures
        is_permutation(spec_output_permutation(SoundSystem::F, ChannelOrdering::Android), 12),
{
    let p = spec_output_permutation(SoundSystem::F, ChannelOrdering::Android);
    let inv: Seq<usize> = seq![2usize, 0, 1, 9, 10, 6, 7, 4, 5, 8, 3, 11];
    assert forall|i: int| 0 <= i < 12 implies #[trigger] p[i] < 12 && inv[p[i] as int] == i by {
        assert(i == 0 || i == 1 || i == 2 || i == 3 || i == 4 || i == 5 || i == 6 || i == 7 || i == 8 || i == 9 || i == 10 || i == 11);
    }
    lemma_left_inverse(p, inv, 12);
}

proof fn lemma_android_g_is_permutation()
    ensures
        is_permutation(spec_output_permutation(SoundSystem::G, ChannelOrdering::Android), 14),
{
    let p = spec_output_permutation(SoundSystem::G, ChannelOrdering::Android);
    let inv: Seq<usize> = seq![0usize, 1, 2, 3, 8, 9, 4, 5, 10, 11, 12, 13, 6, 7];
    assert forall|i: int| 0 <= i < 14 implies #[trigger] p[i] < 14 && inv[p[i] as int] == i by {
        assert(i == 0 || i == 1 || i == 2 || i == 3 || i == 4 || i == 5 || i == 6 || i == 7 || i == 8 || i == 9 || i == 10 || i == 11 || i == 12 || i == 13);
    }
    lemma_left_inverse(p, inv, 14);
}

proof fn lemma_android_h_is_permutation()
    ensures
        is_permutation(spec_output_permutation(SoundSystem::H, ChannelOrdering::Android), 24),
{
    let p = spec_output_permutation(SoundSystem::H, ChannelOrdering::Android);
    let inv: Seq<usize> = seq![0usize, 1, 2, 3, 4, 5, 6, 7, 8, 23, 9, 10, 12, 14, 13, 11, 15, 17, 18, 19, 16, 21, 20, 22];
    assert forall|i: int| 0 <= i < 24 implies #[trigger] p[i] < 24 && inv[p[i] as int] == i by {
        assert(i == 0 || i == 1 || i == 2 || i == 3 || i == 4 || i == 5 || i == 6 || i == 7 || i == 8 || i == 9 || i == 10 || i == 11 || i == 12 || i == 13 || i == 14 || i == 15 || i == 16 || i == 17 || i == 18 || i == 19 || i == 20 || i == 21 || i == 22 || i == 23);
    }
    lemma_left_inverse(p, inv, 24);
}

/// Every output permutation is a bijection on the target's channels: each
/// rendered channel lands in exactly one interleaved slot.
pub proof fn lemma_output_permutation_is_bijection(target: SoundSystem, ordering: ChannelOrdering)
    ensures
        is_permutation(spec_output_permutation(target, ordering), target.spec_channels()),
{
    let n = target.spec_channels();
    assert(n <= 24);
    lemma_identity_is_permutation(n);
    if ordering != ChannelOrdering::Iamf {
        match target {
            SoundSystem::F => lemma_android_f_is_permutation(),
            SoundSystem::G => lemma_android_g_is_permutation(),
            SoundSystem::H => lemma_android_h_is_permutation(),
            SoundSystem::I | SoundSystem::J | SoundSystem::Ext712 => {
                let p = spec_output_permutation(target, ordering);
                assert(n >= 8);
                assert forall|i: int| 0 <= i < n implies #[trigger] p[i] < n && p[p[i] as int] == i by {
                    assert(identity_order(n)[i] == i);
                }
                lemma_left_inverse(p, p, n);
            },
            _ => {},
        }
    }
}

/// Binaural playback matches mixes authored for stereo (sound system A).
pub open spec fn wanted_system(target: SoundSystem) -> SoundSystem {
    if target == SoundSystem::Binaural {
        SoundSystem::A
    } else {
        target
    }
}

/// A declared layout matches the target: a loudspeaker layout numbering
/// the wanted sound system, or the binaural layout when rendering
/// binaurally.
pub open spec fn layout_matches(layout: Layout, target: SoundSystem) -> bool {
    match layout {
        Layout::LoudspeakersSsConvention { sound_system } => spec_sound_system(sound_system) == Some(
            wanted_system(target),
        ),
        Layout::Binaural => target == SoundSystem::Binaural,
        Layout::Reserved { .. } => false,
    }
}

/// Some sub-mix of the mix declares a layout matching the target.
pub open spec fn declares_target(m: SpecMixPresentation, target: SoundSystem) -> bool {
    exists|s: int, k: int|
        0 <= s < m.sub_mixes.len() && 0 <= k < m.sub_mixes[s].layouts.len() && #[trigger] layout_matches(
            m.sub_mixes[s].layouts[k].0,
            target,
        )
}

/// The first of the first `n` mixes that is supported and declares the
/// target.
pub open spec fn first_declaring(
    mixes: Seq<SpecMixPresentation>,
    supported: Seq<bool>,
    target: SoundSystem,
    n: nat,
) -> Option<int>
    decreases n,
{
    if n == 0 {
        None
    } else {
        match first_declaring(mixes, supported, target, (n - 1) as nat) {
            Some(i) => Some(i),
            None => if supported[n - 1] && declares_target(mixes[n - 1], target) {
                Some(n - 1)
            } else {
                None
            },
        }
    }
}

/// The first supported of the first `n` mixes.
pub open spec fn first_supported(supported: Seq<bool>, n: nat) -> Option<int>
    decreases n,
{
    if n == 0 {
        None
    } else {
        match first_supported(supported, (n - 1) as nat) {
            Some(i) => Some(i),
            None => if supported[n - 1] {
                Some(n - 1)
            } else {
                None
            },
        }
    }
}

/// Outcome of a mix selection.
pub enum MixChoice {
    /// The selected mix presentation's index.
    Index(int),
    /// No selectable mix fits the requested profiles (with this message).
    Unsupported(Seq<char>),
    /// The requested index names no mix presentation.
    Missing,
}

/// Automatic selection: the first supported mix declaring the target,
/// else the first supported mix, else none.
pub open spec fn spec_auto_select(mixes: Seq<SpecMixPresentation>, supported: Seq<bool>, target: SoundSystem) -> MixChoice {
    match first_declaring(mixes, supported, target, mixes.len()) {
        Some(i) => MixChoice::Index(i),
        None => match first_supported(supported, supported.len()) {
            Some(i) => MixChoice::Index(i),
            None => MixChoice::Unsupported("no mix presentation is supported by the requested profiles"@),
        },
    }
}

/// Mix selection: by index (which must exist and be supported); by id
/// (the first mix with that id, when supported, else automatic); or
/// automatic.
pub open spec fn spec_select_mix(
    mixes: Seq<SpecMixPresentation>,
    supported: Seq<bool>,
    selection: MixSelection,
    target: SoundSystem,
) -> MixChoice {
    match selection {
        MixSelection::ByIndex(index) => if index < supported.len() {
            if supported[index as int] {
                MixChoice::Index(index as int)
            } else {
                MixChoice::Unsupported(
                    "mix presentation "@ + decimal(index as nat) + " exceeds the requested profiles"@,
                )
            }
        } else {
            MixChoice::Missing
        },
        MixSelection::ById(id) => match mix_index(mixes, id) {
            Some(i) => if supported[i] {
                MixChoice::Index(i)
            } else {
                spec_auto_select(mixes, supported, target)
            },
            None => spec_auto_select(mixes, supported, target),
        },
        MixSelection::Auto => spec_auto_select(mixes, supported, target),
    }
}

fn layout_matches_target(layout: &Layout, target: SoundSystem) -> (b: bool)
    ensures
        b == layout_matches(*layout, target),
{
    let wanted = match target {
        SoundSystem::Binaural => SoundSystem::A,
        other => other,
    };
    match layout {
        Layout::LoudspeakersSsConvention { sound_system } => match SoundSystem::from_u8(*sound_system) {
            Some(s) => s == wanted,
            None => false,
        },
        Layout::Binaural => target == SoundSystem::Binaural,
        Layout::Reserved { .. } => false,
    }
}

fn mix_declares_target(m: &MixPresentation, target: SoundSystem) -> (b: bool)
    ensures
        b == declares_target(m@, target),
{
    let ghost mv = m@;
    let mut s: usize = 0;
    while s < m.sub_mixes.len()
        invariant
            s <= mv.sub_mixes.len(),
            mv == m@,
            forall|a: int, k: int|
                0 <= a < s && 0 <= k < mv.sub_mixes[a].layouts.len() ==> !#[trigger] layout_matches(
                    mv.sub_mixes[a].layouts[k].0,
                    target,
                ),
        decreases m.sub_mixes.len() - s,
    {
        let sm = &m.sub_mixes[s];
        assert(mv.sub_mixes[s as int] == sm@);
        let mut k: usize = 0;
        while k < sm.layouts.len()
            invariant
                k <= sm@.layouts.len(),
                mv == m@,
                s < mv.sub_mixes.len(),
                mv.sub_mixes[s as int] == sm@,
                forall|j: int| 0 <= j < k ==> !#[trigger] layout_matches(sm@.layouts[j].0, target),
            decreases sm.layouts.len() - k,
        {
            assert(sm@.layouts[k as int] == sm.layouts[k as int]@);
            if layout_matches_target(&sm.layouts[k].0, target) {
                assert(layout_matches(mv.sub_mixes[s as int].layouts[k as int].0, target));
                return true;
            }
            k = k + 1;
        }
        s = s + 1;
    }
    false
}

fn auto_select(mixes: &[MixPresentation], supported: &[bool], target: SoundSystem) -> (r: Result<usize, DecodeError>)
    requires
        mixes@.len() <= supported@.len(),
    ensures
        match r {
            Ok(i) => spec_auto_select(views(mixes@), supported@, target) == MixChoice::Index(i as int),
            Err(DecodeError::UnsupportedProfile(m)) => spec_auto_select(views(mixes@), supported@, target)
                == MixChoice::Unsupported(m@),
            Err(_) => false,
        },
{
    let ghost ms = views(mixes@);
    let mut i: usize = 0;
    while i < mixes.len()
        invariant
            i <= mixes@.len(),
            mixes@.len() <= supported@.len(),
            ms == views(mixes@),
            first_declaring(ms, supported@, target, i as nat) is None,
        decreases mixes.len() - i,
    {
        if supported[i] && mix_declares_target(&mixes[i], target) {
            assert(first_declaring(ms, supported@, target, (i + 1) as nat) == Some(i as int));
            proof {
                lemma_first_declaring_stable(ms, supported@, target, (i + 1) as nat, ms.len());
            }
            return Ok(i);
        }
        i = i + 1;
    }
    let mut j: usize = 0;
    while j < supported.len()
        invariant
            j <= supported@.len(),
            first_supported(supported@, j as nat) is None,
            ms == views(mixes@),
            first_declaring(ms, supported@, target, ms.len()) is None,
        decreases supported.len() - j,
    {
        if supported[j] {
            proof {
                lemma_first_supported_stable(supported@, (j + 1) as nat, supported@.len());
            }
            return Ok(j);
        }
        j = j + 1;
    }
    Err(DecodeError::UnsupportedProfile("no mix presentation is supported by the requested profiles".to_owned()))
}

proof fn lemma_first_declaring_stable(
    mixes: Seq<SpecMixPresentation>,
    supported: Seq<bool>,
    target: SoundSystem,
    k: nat,
    n: nat,
)
    requires
        k <= n,
        first_declaring(mixes, supported, target, k) is Some,
    ensures
        first_declaring(mixes, supported, target, n) == first_declaring(mixes, supported, target, k),
    decreases n,
{
    if n > k {
        lemma_first_declaring_stable(mixes, supported, target, k, (n - 1) as nat);
    }
}

proof fn lemma_first_supported_stable(supported: Seq<bool>, k: nat, n: nat)
    requires
        k <= n,
        first_supported(supported, k) is Some,
    ensures
        first_supported(supported, n) == first_supported(supported, k),
    decreases n,
{
    if n > k {
        lemma_first_supported_stable(supported, k, (n - 1) as nat);
    }
}

/// Resolves a mix selection against parsed descriptors. `supported[i]`
/// says whether mix i fits some requested profile (see
/// [`crate::profile::filter_profiles_for_mix`]); unsupported mixes are
/// never selected.
pub fn select_mix_index(
    mixes: &[MixPresentation],
    supported: &[bool],
    selection: MixSelection,
    target: SoundSystem,
) -> (r: Result<usize, DecodeError>)
    requires
        !(selection is ByIndex) ==> mixes@.len() <= supported@.len(),
    ensures
        match r {
            Ok(i) => spec_select_mix(views(mixes@), supported@, selection, target) == MixChoice::Index(i as int),
            Err(DecodeError::UnsupportedProfile(m)) => spec_select_mix(views(mixes@), supported@, selection, target)
                == MixChoice::Unsupported(m@),
            Err(DecodeError::InvalidDescriptors(m)) => spec_select_mix(views(mixes@), supported@, selection, target)
                == MixChoice::Missing && m@ == "no such mix presentation"@,
            Err(_) => false,
        },
{
    if let MixSelection::ByIndex(index) = selection {
        if index < supported.len() {
            if supported[index] {
                return Ok(index);
            } else {
                return Err(
                    DecodeError::UnsupportedProfile(
                        format_number("mix presentation ", index, " exceeds the requested profiles"),
                    ),
                );
            }
        } else {
            return Err(DecodeError::InvalidDescriptors("no such mix presentation".to_owned()));
        }
    }
    if let MixSelection::ById(id) = selection {
        // A missing or unsupported id falls back to automatic selection,
        // as if no id had been given.
        if let Some(index) = find_mix(mixes, id) {
            if supported[index] {
                return Ok(index);
            }
        }
    }
    auto_select(mixes, supported, target)
}

/// The stream may be decoded only when the profiles its sequence
/// header declares (primary or additional) meet the requested set.
pub fn check_declared_profiles(header: &SequenceHeader, requested: ProfileSet) -> (r: Result<(), DecodeError>)
    ensures
        match r {
            Ok(()) => (profile_bit(header.primary_profile) | profile_bit(header.additional_profile)) & requested.bits()
                != 0,
            Err(DecodeError::UnsupportedProfile(m)) => (profile_bit(header.primary_profile) | profile_bit(
                header.additional_profile,
            )) & requested.bits() == 0 && m@ == "stream declares profiles "@ + decimal(
                header.primary_profile as nat,
            ) + "/"@ + decimal(header.additional_profile as nat) + " outside the requested set"@,
            Err(_) => false,
        },
{
    let declared = ProfileSet::from_profile_number(header.primary_profile).union(
        ProfileSet::from_profile_number(header.additional_profile),
    );
    if !declared.intersects(requested) {
        return Err(
            DecodeError::UnsupportedProfile(
                format_two_numbers(
                    "stream declares profiles ",
                    header.primary_profile as usize,
                    "/",
                    header.additional_profile as usize,
                    " outside the requested set",
                ),
            ),
        );
    }
    Ok(())
}

/// Iamf-tools semantics: a mix presentation is selectable when it fits
/// within some requested profile's limits.
pub fn supported_mixes(parsed: &Descriptors, requested: ProfileSet) -> (supported: Vec<bool>)
    ensures
        supported@.len() == parsed@.mix_presentations.len(),
        forall|i: int|
            0 <= i < supported@.len() ==> #[trigger] supported@[i] == (spec_filter_profiles(
                parsed@.mix_presentations[i],
                parsed@.audio_elements,
                parsed@.codec_configs,
                requested.bits(),
            ) != 0),
{
    let mut supported: Vec<bool> = Vec::new();
    let mut i: usize = 0;
    while i < parsed.mix_presentations.len()
        invariant
            i <= parsed@.mix_presentations.len(),
            supported@.len() == i,
            forall|j: int|
                0 <= j < i ==> #[trigger] supported@[j] == (spec_filter_profiles(
                    parsed@.mix_presentations[j],
                    parsed@.audio_elements,
                    parsed@.codec_configs,
                    requested.bits(),
                ) != 0),
        decreases parsed.mix_presentations.len() - i,
    {
        let p = filter_profiles_for_mix(
            &parsed.mix_presentations[i],
            &parsed.audio_elements,
            &parsed.codec_configs,
            requested,
        );
        supported.push(!p.is_empty());
        i = i + 1;
    }
    supported
}

/// A codec config carrying more than 16 bits per sample.
pub open spec fn is_deep(c: SpecCodecConfig) -> bool {
    match c.decoder_config {
        SpecDecoderConfig::Lpcm { sample_size, .. } => sample_size > 16,
        SpecDecoderConfig::Flac { bits_per_sample, .. } => bits_per_sample > 16,
        _ => false,
    }
}

/// Output sample type: the requested one; when none was requested, s32le
/// if any codec config carries more than 16 bits per sample, else s16le.
pub fn auto_sample_type(requested: Option<OutputSampleType>, configs: &[CodecConfig]) -> (t: OutputSampleType)
    ensures
        t == (match requested {
            Some(r) => r,
            None => if exists|i: int| 0 <= i < configs@.len() && #[trigger] is_deep(configs@[i]@) {
                OutputSampleType::Int32LittleEndian
            } else {
                OutputSampleType::Int16LittleEndian
            },
        }),
{
    if let Some(r) = requested {
        return r;
    }
    let mut i: usize = 0;
    while i < configs.len()
        invariant
            requested is None,
            i <= configs@.len(),
            forall|j: int| 0 <= j < i ==> !#[trigger] is_deep(configs@[j]@),
        decreases configs.len() - i,
    {
        let deep = match &configs[i].decoder_config {
            DecoderConfig::Lpcm { sample_size, .. } => *sample_size > 16,
            DecoderConfig::Flac { bits_per_sample, .. } => *bits_per_sample > 16,
            _ => false,
        };
        if deep {
            assert(is_deep(configs@[i as int]@));
            return OutputSampleType::Int32LittleEndian;
        }
        i = i + 1;
    }
    OutputSampleType::Int16LittleEndian
}

/// The samples of a temporal unit dropped at its start and end: the
/// unit's trims, clamped so that together they never exceed the unit, and
/// zero where trimming is disabled.
pub fn trim_window(unit_len: usize, trim_start: u32, trim_end: u32, trimming: TrimmingSettings) -> (r: (
    usize,
    usize,
))
    ensures
        r.0 == (if trimming.trim_beginning {
            if trim_start < unit_len {
                trim_start as usize
            } else {
                unit_len
            }
        } else {
            0
        }),
        r.1 == (if trimming.trim_end {
            if trim_end < unit_len - r.0 {
                trim_end as usize
            } else {
                (unit_len - r.0) as usize
            }
        } else {
            0
        }),
        r.0 + r.1 <= unit_len,
{
    let start = if trimming.trim_beginning {
        if (trim_start as usize) < unit_len {
            trim_start as usize
        } else {
            unit_len
        }
    } else {
        0
    };
    let end = if trimming.trim_end {
        if (trim_end as usize) < unit_len - start {
            trim_end as usize
        } else {
            unit_len - start
        }
    } else {
        0
    };
    (start, end)
}

/// A temporal delimiter sits on a temporal-unit boundary, so every
/// substream of every element must have the same number of buffered
/// frames (`depths`, in slot order). A mismatch means a frame was lost or
/// duplicated.
pub fn check_unit_alignment(depths: &[usize]) -> (r: Result<(), DecodeError>)
    ensures
        match r {
            Ok(()) => forall|i: int| 0 <= i < depths@.len() ==> #[trigger] depths@[i] == depths@[0],
            Err(DecodeError::CorruptPacket(m)) => (exists|i: int|
                0 <= i < depths@.len() && #[trigger] depths@[i] != depths@[0]) && m@
                == "temporal delimiter mid-unit: substreams have unequal frame counts"@,
            Err(_) => false,
        },
{
    let mut i: usize = 0;
    while i < depths.len()
        invariant
            i <= depths@.len(),
            forall|j: int| 0 <= j < i ==> #[trigger] depths@[j] == depths@[0],
        decreases depths.len() - i,
    {
        if depths[i] != depths[0] {
            return Err(
                DecodeError::CorruptPacket("temporal delimiter mid-unit: substreams have unequal frame counts".to_owned()),
            );
        }
        i = i + 1;
    }
    Ok(())
}

/// The first slot that carries `substream_id`, and the substream's
/// position in it.
pub open spec fn spec_route(slot_ids: Seq<Seq<u32>>, substream_id: u32, n: nat) -> Option<(int, int)>
    decreases n,
{
    if n == 0 {
        None
    } else {
        match spec_route(slot_ids, substream_id, (n - 1) as nat) {
            Some(r) => Some(r),
            None => {
                let ids = slot_ids[n - 1];
                if exists|k: int| 0 <= k < ids.len() && ids[k] == substream_id {
                    Some(
                        (
                            n - 1,
                            choose|k: int|
                                0 <= k < ids.len() && ids[k] == substream_id && forall|j: int|
                                    0 <= j < k ==> ids[j] != substream_id,
                        ),
                    )
                } else {
                    None
                }
            },
        }
    }
}

/// Where an audio frame of `substream_id` goes: the first slot whose
/// substream ids hold it, and its first position there; `None` when no
/// slot decodes that substream (the frame is dropped).
pub fn route_substream(slot_ids: &[Vec<u32>], substream_id: u32) -> (r: Option<(usize, usize)>)
    ensures
        match r {
            Some((s, k)) => spec_route(views(slot_ids@), substream_id, slot_ids@.len()) == Some((s as int, k as int)),
            None => spec_route(views(slot_ids@), substream_id, slot_ids@.len()) is None,
        },
{
    let ghost ids = views(slot_ids@);
    let mut s: usize = 0;
    while s < slot_ids.len()
        invariant
            s <= slot_ids@.len(),
            ids == views(slot_ids@),
            spec_route(ids, substream_id, s as nat) is None,
        decreases slot_ids.len() - s,
    {
        let v = &slot_ids[s];
        assert(ids[s as int] == v@);
        let mut k: usize = 0;
        while k < v.len()
            invariant
                k <= v@.len(),
                s < slot_ids@.len(),
                ids == views(slot_ids@),
                ids[s as int] == v@,
                spec_route(ids, substream_id, s as nat) is None,
                forall|j: int| 0 <= j < k ==> v@[j] != substream_id,
            decreases v.len() - k,
        {
            if v[k] == substream_id {
                assert(spec_route(ids, substream_id, (s + 1) as nat) == Some((s as int, k as int)));
                proof {
                    lemma_route_stable(ids, substream_id, (s + 1) as nat, ids.len());
                }
                return Some((s, k));
            }
            k = k + 1;
        }
        s = s + 1;
    }
    None
}

proof fn lemma_route_stable(slot_ids: Seq<Seq<u32>>, substream_id: u32, k: nat, n: nat)
    requires
        k <= n,
        spec_route(slot_ids, substream_id, k) is Some,
    ensures
        spec_route(slot_ids, substream_id, n) == spec_route(slot_ids, substream_id, k),
    decreases n,
{
    if n > k {
        lemma_route_stable(slot_ids, substream_id, k, (n - 1) as nat);
    }
}

/// An element's substreams must match its substream ids one to one (and
/// there must be at least one).
pub fn check_substream_count(channels: &[u8], substream_ids: &[u32]) -> (r: Result<(), DecodeError>)
    ensures
        match r {
            Ok(()) => channels@.len() > 0 && channels@.len() == substream_ids@.len(),
            Err(DecodeError::InvalidDescriptors(m)) => !(channels@.len() > 0 && channels@.len()
                == substream_ids@.len()) && m@ == "substream count mismatch"@,
            Err(_) => false,
        },
{
    if channels.len() == 0 || channels.len() != substream_ids.len() {
        return Err(DecodeError::InvalidDescriptors("substream count mismatch".to_owned()));
    }
    Ok(())
}

/// The frames of one slot for one temporal unit: its samples per channel
/// and the trims of each of its frames.
pub struct UnitFrames {
    pub frame_len: usize,
    pub trims: Vec<(u32, u32)>,
}

/// All frames of all slots agree with the first frame's trims, and all
/// slots on the first slot's length, over the first `n` slots.
pub open spec fn unit_consistent(slots: Seq<(usize, Seq<(u32, u32)>)>, n: nat) -> bool {
    forall|s: int|
        #![trigger slots[s]]
        0 <= s < n ==> slots[s].0 == slots[0].0 && forall|f: int|
            0 <= f < slots[s].1.len() ==> #[trigger] slots[s].1[f] == slots[0].1[0]
}

/// Slot `s` agrees with the first frame of the first slot.
pub open spec fn slot_agrees(slots: Seq<(usize, Seq<(u32, u32)>)>, s: int) -> bool {
    slots[s].0 == slots[0].0 && forall|f: int| 0 <= f < slots[s].1.len() ==> #[trigger] slots[s].1[f] == slots[0].1[0]
}

/// The first slot that disagrees.
pub open spec fn first_disagreeing(slots: Seq<(usize, Seq<(u32, u32)>)>, n: nat) -> int {
    choose|s: int| 0 <= s < n && !slot_agrees(slots, s) && forall|t: int| 0 <= t < s ==> #[trigger] slot_agrees(slots, t)
}

/// Why a unit is inconsistent, judged at its first disagreeing slot: that
/// slot's own frames disagree on trims, or else its frame length differs,
/// or else its trims differ from the first slot's.
pub open spec fn unit_error(slots: Seq<(usize, Seq<(u32, u32)>)>, n: nat) -> Seq<char> {
    let s = first_disagreeing(slots, n);
    if (forall|f: int| 0 <= f < slots[s].1.len() ==> #[trigger] slots[s].1[f] == slots[s].1[0]) && slots[s].0
        != slots[0].0 {
        "temporal unit frame lengths differ across elements"@
    } else {
        "audio frames of one temporal unit disagree on trimming"@
    }
}

pub open spec fn unit_view(u: UnitFrames) -> (usize, Seq<(u32, u32)>) {
    (u.frame_len, u.trims@)
}

proof fn lemma_first_disagreeing(slots: Seq<(usize, Seq<(u32, u32)>)>, n: nat, s: int)
    requires
        0 <= s < n,
        !slot_agrees(slots, s),
        unit_consistent(slots, s as nat),
    ensures
        first_disagreeing(slots, n) == s,
{
    assert forall|t: int| 0 <= t < s implies #[trigger] slot_agrees(slots, t) by {
        assert(slots[t] == slots[t]);
    }
    let c = first_disagreeing(slots, n);
    if c < s {
        assert(slots[c] == slots[c]);
    }
    if c > s {
        assert(slot_agrees(slots, s));
    }
}

/// Trimming and frame duration are per temporal unit, so every
/// frame of the unit must agree on its trims and every element on its
/// frame length. Returns the unit's length and trims.
pub fn check_temporal_unit(slots: &[UnitFrames]) -> (r: Result<(usize, (u32, u32)), DecodeError>)
    requires
        forall|s: int| 0 <= s < slots@.len() ==> #[trigger] slots@[s].trims@.len() > 0,
        slots@.len() > 0,
    ensures
        match r {
            Ok((len, trim)) => unit_consistent(slots@.map_values(|u: UnitFrames| unit_view(u)), slots@.len())
                && len == slots@[0].frame_len && trim == slots@[0].trims@[0],
            Err(DecodeError::CorruptPacket(m)) => !unit_consistent(
                slots@.map_values(|u: UnitFrames| unit_view(u)),
                slots@.len(),
            ) && m@ == unit_error(slots@.map_values(|u: UnitFrames| unit_view(u)), slots@.len()),
            Err(_) => false,
        },
{
    let ghost v = slots@.map_values(|u: UnitFrames| unit_view(u));
    let len = slots[0].frame_len;
    let trim = slots[0].trims[0];
    assert(v[0] == unit_view(slots@[0]));
    let mut s: usize = 0;
    while s < slots.len()
        invariant
            s <= slots@.len(),
            slots@.len() > 0,
            v == slots@.map_values(|u: UnitFrames| unit_view(u)),
            forall|t: int| 0 <= t < slots@.len() ==> #[trigger] slots@[t].trims@.len() > 0,
            len == v[0].0,
            trim == v[0].1[0],
            v[0].1.len() > 0,
            unit_consistent(v, s as nat),
        decreases slots.len() - s,
    {
        let slot = &slots[s];
        assert(v[s as int] == unit_view(*slot));
        let first = slot.trims[0];
        let mut f: usize = 0;
        while f < slot.trims.len()
            invariant
                f <= slot.trims@.len(),
                s < slots@.len(),
                v == slots@.map_values(|u: UnitFrames| unit_view(u)),
                v[s as int] == unit_view(*slot),
                v[0].1.len() > 0,
                slot.trims@.len() > 0,
                first == slot.trims@[0],
                forall|g: int| 0 <= g < f ==> #[trigger] slot.trims@[g] == first,
                unit_consistent(v, s as nat),
            decreases slot.trims.len() - f,
        {
            if slot.trims[f].0 != first.0 || slot.trims[f].1 != first.1 {
                assert(!unit_consistent(v, slots@.len())) by {
                    if unit_consistent(v, slots@.len()) {
                        assert(v[s as int].1[f as int] == v[0].1[0]);
                        assert(v[s as int].1[0] == v[0].1[0]);
                    }
                }
                proof {
                    assert(v[s as int].1[f as int] != v[s as int].1[0]);
                    lemma_first_disagreeing(v, slots@.len(), s as int);
                }
                return Err(DecodeError::CorruptPacket("audio frames of one temporal unit disagree on trimming".to_owned()));
            }
            f = f + 1;
        }
        if slot.frame_len != len {
            assert(!unit_consistent(v, slots@.len())) by {
                if unit_consistent(v, slots@.len()) {
                    assert(v[s as int].0 == v[0].0);
                }
            }
            proof {
                lemma_first_disagreeing(v, slots@.len(), s as int);
            }
            return Err(DecodeError::CorruptPacket("temporal unit frame lengths differ across elements".to_owned()));
        }
        if first.0 != trim.0 || first.1 != trim.1 {
            assert(!unit_consistent(v, slots@.len())) by {
                if unit_consistent(v, slots@.len()) {
                    assert(v[s as int].1[0] == v[0].1[0]);
                }
            }
            proof {
                lemma_first_disagreeing(v, slots@.len(), s as int);
            }
            return Err(DecodeError::CorruptPacket("audio frames of one temporal unit disagree on trimming".to_owned()));
        }
        assert(v[s as int].0 == v[0].0);
        assert forall|g: int| 0 <= g < v[s as int].1.len() implies #[trigger] v[s as int].1[g] == v[0].1[0] by {
            assert(slot.trims@[g] == first);
        }
        s = s + 1;
    }
    Ok((len, trim))
}

/// The outcome of reading one OBU from buffered stream bytes.
pub open spec fn spec_next_obu(data: Seq<u8>) -> Result<Option<(SpecObu, int)>, Seq<char>> {
    match spec_parse_obu(data, 0) {
        Ok((obu, p)) => Ok(Some((obu, p))),
        Err(crate::error::Error::UnexpectedEof { .. }) => Ok(None),
        Err(e) => Err(e.spec_message()),
    }
}

/// Reads the next complete OBU from buffered stream bytes: the OBU and the
/// bytes it took; `None` when the bytes end inside the OBU (more data is
/// needed); any other parse error is a corrupt packet.
pub fn next_obu<'a>(data: &'a [u8]) -> (r: Result<Option<(Obu<'a>, usize)>, DecodeError>)
    ensures
        match r {
            Ok(Some((obu, n))) => spec_next_obu(data@) == Ok::<Option<(SpecObu, int)>, Seq<char>>(
                Some((obu@, n as int)),
            ),
            Ok(None) => spec_next_obu(data@) == Ok::<Option<(SpecObu, int)>, Seq<char>>(None),
            Err(DecodeError::CorruptPacket(m)) => spec_next_obu(data@) == Err::<Option<(SpecObu, int)>, Seq<char>>(
                m@,
            ),
            Err(_) => false,
        },
{
    let mut reader = ByteReader::new(data);
    match Obu::parse(&mut reader) {
        Ok(obu) => {
            let n = reader.position();
            Ok(Some((obu, n)))
        },
        Err(crate::error::Error::UnexpectedEof { .. }) => Ok(None),
        Err(e) => Err(DecodeError::CorruptPacket(e.message())),
    }
}

/// Streaming does not depend on how the bytes are chunked: bytes pushed
/// later never change an OBU that is already complete, nor a corruption
/// already found; only an incomplete OBU waits for more data.
pub proof fn lemma_next_obu_chunking(pending: Seq<u8>, more: Seq<u8>)
    ensures
        spec_next_obu(pending) != Ok::<Option<(SpecObu, int)>, Seq<char>>(None) ==> spec_next_obu(pending + more)
            == spec_next_obu(pending),
{
    crate::obu::lemma_parse_obu_extension(pending, more, 0);
}

/// The sample rate a codec config implies before any frame is decoded:
/// 48 kHz for Opus, the declared rate for LPCM and FLAC, unknown (0)
/// otherwise.
pub open spec fn spec_config_rate(c: SpecCodecConfig) -> u32 {
    match c.decoder_config {
        SpecDecoderConfig::Opus { .. } => 48000,
        SpecDecoderConfig::Lpcm { sample_rate, .. } => sample_rate,
        SpecDecoderConfig::Flac { sample_rate, .. } => sample_rate,
        _ => 0,
    }
}

/// The output sample rate: the first nonzero rate a slot decoded at;
/// before any, the rate the first slot's codec config implies (0 without
/// slots).
pub fn stream_sample_rate(slot_rates: &[u32], first_config: Option<&CodecConfig>) -> (rate: u32)
    ensures
        (exists|i: int| 0 <= i < slot_rates@.len() && slot_rates@[i] != 0) ==> (rate != 0 && exists|i: int|
            0 <= i < slot_rates@.len() && slot_rates@[i] == rate && forall|j: int|
                0 <= j < i ==> #[trigger] slot_rates@[j] == 0),
        !(exists|i: int| 0 <= i < slot_rates@.len() && slot_rates@[i] != 0) ==> rate == (match first_config {
            Some(c) => spec_config_rate(c@),
            None => 0,
        }),
{
    let mut i: usize = 0;
    while i < slot_rates.len()
        invariant
            i <= slot_rates@.len(),
            forall|j: int| 0 <= j < i ==> #[trigger] slot_rates@[j] == 0,
        decreases slot_rates.len() - i,
    {
        if slot_rates[i] != 0 {
            return slot_rates[i];
        }
        i = i + 1;
    }
    match first_config {
        Some(c) => match &c.decoder_config {
            DecoderConfig::Opus { .. } => 48000,
            DecoderConfig::Lpcm { sample_rate, .. } => *sample_rate,
            DecoderConfig::Flac { sample_rate, .. } => *sample_rate,
            _ => 0,
        },
        None => 0,
    }
}

/// Per-sample animated gain cursor: consumes mix-gain subblocks in arrival
/// order, one sample at a time. Each pending entry is `(animation,
/// duration, position)`; the gain value itself is the animation evaluated
/// at the position.
pub struct GainCursor {
    queue: VecDeque<(MixGainAnimation, usize, usize)>,
}

impl GainCursor {
    /// Pending `(animation, duration, position)` entries, earliest first.
    pub closed spec fn entries(&self) -> Seq<(MixGainAnimation, usize, usize)> {
        self.queue@
    }

    /// Every pending entry has samples left.
    pub open spec fn wf(&self) -> bool {
        forall|i: int| 0 <= i < self.entries().len() ==> #[trigger] self.entries()[i].2 < self.entries()[i].1
    }

    /// Queues a subblock covering `duration` samples; empty ones are
    /// dropped.
    pub fn push(&mut self, anim: MixGainAnimation, duration: usize)
        requires
            old(self).wf(),
        ensures
            final(self).wf(),
            final(self).entries() == (if duration > 0 {
                old(self).entries().push((anim, duration, 0usize))
            } else {
                old(self).entries()
            }),
    {
        if duration > 0 {
            self.queue.push_back((anim, duration, 0));
            assert forall|i: int| 0 <= i < self.entries().len() implies #[trigger] self.entries()[i].2
                < self.entries()[i].1 by {
                if i < old(self).entries().len() {
                    assert(self.entries()[i] == old(self).entries()[i]);
                }
            }
        }
    }

    /// The animation and position of the next sample, advancing the
    /// cursor; `None` once the queue is exhausted (the default gain
    /// applies).
    pub fn advance(&mut self) -> (r: Option<(MixGainAnimation, usize, usize)>)
        requires
            old(self).wf(),
        ensures
            final(self).wf(),
            match r {
                None => old(self).entries().len() == 0 && final(self).entries() == old(self).entries(),
                Some((anim, duration, pos)) => {
                    let rest = old(self).entries().subrange(1, old(self).entries().len() as int);
                    &&& old(self).entries().len() > 0
                    &&& old(self).entries()[0] == (anim, duration, pos)
                    &&& final(self).entries() == (if pos + 1 >= duration {
                        rest
                    } else {
                        seq![(anim, duration, (pos + 1) as usize)] + rest
                    })
                },
            },
    {
        match self.queue.pop_front() {
            None => None,
            Some((anim, duration, pos)) => {
                assert(pos < duration);
                if pos + 1 < duration {
                    self.queue.push_front((anim, duration, pos + 1));
                    assert(self.queue@ =~= seq![(anim, duration, (pos + 1) as usize)] + old(self).queue@.subrange(
                        1,
                        old(self).queue@.len() as int,
                    ));
                }
                Some((anim, duration, pos))
            },
        }
    }
}

impl Default for GainCursor {
    fn default() -> (c: Self)
        ensures
            c.wf(),
            c.entries() == Seq::<(MixGainAnimation, usize, usize)>::empty(),
    {
        GainCursor { queue: VecDeque::new() }
    }
}

proof fn lemma_first_declaring_supported(
    mixes: Seq<SpecMixPresentation>,
    supported: Seq<bool>,
    target: SoundSystem,
    n: nat,
)
    requires
        n <= supported.len(),
    ensures
        first_declaring(mixes, supported, target, n) matches Some(i) ==> 0 <= i < n && supported[i],
    decreases n,
{
    if n > 0 {
        lemma_first_declaring_supported(mixes, supported, target, (n - 1) as nat);
    }
}

proof fn lemma_first_supported_supported(supported: Seq<bool>, n: nat)
    requires
        n <= supported.len(),
    ensures
        first_supported(supported, n) matches Some(i) ==> 0 <= i < n && supported[i],
    decreases n,
{
    if n > 0 {
        lemma_first_supported_supported(supported, (n - 1) as nat);
    }
}

/// A supported mix declaring the target.
pub open spec fn qualifies(mixes: Seq<SpecMixPresentation>, supported: Seq<bool>, target: SoundSystem, j: int) -> bool {
    supported[j] && declares_target(mixes[j], target)
}

proof fn lemma_first_declaring_least(mixes: Seq<SpecMixPresentation>, supported: Seq<bool>, target: SoundSystem, n: nat)
    ensures
        match first_declaring(mixes, supported, target, n) {
            Some(i) => 0 <= i < n && qualifies(mixes, supported, target, i) && forall|j: int|
                0 <= j < i ==> !#[trigger] qualifies(mixes, supported, target, j),
            None => forall|j: int| 0 <= j < n ==> !#[trigger] qualifies(mixes, supported, target, j),
        },
    decreases n,
{
    if n > 0 {
        lemma_first_declaring_least(mixes, supported, target, (n - 1) as nat);
    }
}

proof fn lemma_first_supported_least(supported: Seq<bool>, n: nat)
    ensures
        match first_supported(supported, n) {
            Some(i) => 0 <= i < n && supported[i] && forall|j: int| 0 <= j < i ==> !#[trigger] supported[j],
            None => forall|j: int| 0 <= j < n ==> !#[trigger] supported[j],
        },
    decreases n,
{
    if n > 0 {
        lemma_first_supported_least(supported, (n - 1) as nat);
    }
}

/// Automatic selection picks the least index: the first supported mix
/// declaring the target when there is one, else the first supported mix;
/// it fails only when no mix is supported.
pub proof fn lemma_auto_select_least(mixes: Seq<SpecMixPresentation>, supported: Seq<bool>, target: SoundSystem)
    requires
        mixes.len() == supported.len(),
    ensures
        (exists|k: int| 0 <= k < mixes.len() && #[trigger] qualifies(mixes, supported, target, k)) ==> (
        spec_auto_select(mixes, supported, target) matches MixChoice::Index(i) && 0 <= i < mixes.len()
            && qualifies(mixes, supported, target, i) && forall|j: int|
            0 <= j < i ==> !#[trigger] qualifies(mixes, supported, target, j)),
        !(exists|k: int| 0 <= k < mixes.len() && #[trigger] qualifies(mixes, supported, target, k)) && (exists|k: int|
            0 <= k < mixes.len() && #[trigger] supported[k]) ==> (spec_auto_select(mixes, supported, target) matches MixChoice::Index(
            i,
        ) && 0 <= i < mixes.len() && supported[i] && forall|j: int| 0 <= j < i ==> !#[trigger] supported[j]),
        !(exists|k: int| 0 <= k < mixes.len() && #[trigger] supported[k]) ==> spec_auto_select(
            mixes,
            supported,
            target,
        ) is Unsupported,
{
    lemma_first_declaring_least(mixes, supported, target, mixes.len());
    lemma_first_supported_least(supported, supported.len());
}

/// Unsupported mixes are never selected: whatever the selection, a chosen
/// mix exists and fits some requested profile.
pub proof fn lemma_selected_mix_is_supported(
    mixes: Seq<SpecMixPresentation>,
    supported: Seq<bool>,
    selection: MixSelection,
    target: SoundSystem,
)
    requires
        mixes.len() == supported.len(),
    ensures
        spec_select_mix(mixes, supported, selection, target) matches MixChoice::Index(i) ==> 0 <= i
            < mixes.len() && supported[i],
{
    lemma_first_declaring_supported(mixes, supported, target, mixes.len());
    lemma_first_supported_supported(supported, supported.len());
    match selection {
        MixSelection::ById(id) => {
            crate::descriptors::lemma_mix_index_bounds(mixes, id);
        },
        _ => {},
    }
}

/// The element a sub-mix references and its codec config, as positions in
/// the descriptors: an unknown element or codec config is invalid.
pub fn resolve_sub_element(parsed: &Descriptors, audio_element_id: u32) -> (r: Result<(usize, usize), DecodeError>)
    ensures
        match r {
            Ok((e, c)) => element_index(parsed@.audio_elements, audio_element_id) == Some(e as int)
                && codec_config_index(parsed@.codec_configs, parsed@.audio_elements[e as int].codec_config_id) == Some(
                c as int,
            ) && e < parsed.audio_elements@.len() && c < parsed.codec_configs@.len(),
            Err(DecodeError::InvalidDescriptors(m)) => match element_index(parsed@.audio_elements, audio_element_id) {
                None => m@ == "mix references unknown element "@ + decimal(audio_element_id as nat) + ""@,
                Some(e) => codec_config_index(
                    parsed@.codec_configs,
                    parsed@.audio_elements[e].codec_config_id,
                ) is None && m@ == "element references unknown codec config "@ + decimal(
                    parsed@.audio_elements[e].codec_config_id as nat,
                ) + ""@,
            },
            Err(_) => false,
        },
{
    let e = match crate::descriptors::find_element(&parsed.audio_elements, audio_element_id) {
        Some(e) => e,
        None => {
            return Err(
                DecodeError::InvalidDescriptors(
                    format_number("mix references unknown element ", audio_element_id as usize, ""),
                ),
            );
        },
    };
    let codec_id = parsed.audio_elements[e].codec_config_id;
    assert(parsed@.audio_elements[e as int] == parsed.audio_elements@[e as int]@);
    let c = match crate::descriptors::find_codec_config(&parsed.codec_configs, codec_id) {
        Some(c) => c,
        None => {
            return Err(
                DecodeError::InvalidDescriptors(
                    format_number("element references unknown codec config ", codec_id as usize, ""),
                ),
            );
        },
    };
    Ok((e, c))
}

/// What a parameter block drives.
#[derive(Debug, Clone, Copy, PartialEq, Eq, Structural)]
pub enum ParamKind {
    Demixing,
    ReconGain,
    /// Mix gain of the slot's element.
    ElementMixGain,
    /// Output mix gain of the sub-mix (slot unused).
    OutputMixGain,
}

/// One consumer of a parameter id.
pub struct ParamTarget {
    pub parameter_id: u32,
    pub slot: usize,
    pub kind: ParamKind,
    pub definition: ParamDefinition,
}

pub struct SpecParamTarget {
    pub parameter_id: u32,
    pub slot: usize,
    pub kind: ParamKind,
    pub definition: SpecParamDefinition,
}

impl View for ParamTarget {
    type V = SpecParamTarget;

    open spec fn view(&self) -> SpecParamTarget {
        SpecParamTarget { parameter_id: self.parameter_id, slot: self.slot, kind: self.kind, definition: self.definition@ }
    }
}

pub open spec fn target_of(slot: usize, kind: ParamKind, d: SpecParamDefinition) -> SpecParamTarget {
    SpecParamTarget { parameter_id: d.parameter_id, slot, kind, definition: d }
}

/// The consumers among an element's first `n` parameters: demixing and
/// recon gain definitions; parameters of reserved types drive nothing.
pub open spec fn element_param_targets(slot: usize, params: Seq<SpecElementParam>, n: nat) -> Seq<SpecParamTarget>
    decreases n,
{
    if n == 0 {
        Seq::empty()
    } else {
        let prev = element_param_targets(slot, params, (n - 1) as nat);
        match params[n - 1] {
            SpecElementParam::Demixing { base, .. } => prev.push(target_of(slot, ParamKind::Demixing, base)),
            SpecElementParam::ReconGain(base) => prev.push(target_of(slot, ParamKind::ReconGain, base)),
            SpecElementParam::Unknown { .. } => prev,
        }
    }
}

/// The consumers a slot registers: its element's parameters, then the
/// sub-mix element's mix gain.
pub open spec fn slot_targets(slot: usize, e: SpecAudioElement, se: SpecSubMixElement) -> Seq<SpecParamTarget> {
    element_param_targets(slot, e.params, e.params.len()).push(
        target_of(slot, ParamKind::ElementMixGain, se.element_mix_gain.base),
    )
}

fn copy_definition(d: &ParamDefinition) -> (c: ParamDefinition)
    ensures
        c@ == d@,
{
    ParamDefinition {
        parameter_id: d.parameter_id,
        parameter_rate: d.parameter_rate,
        mode: d.mode,
        duration: d.duration,
        constant_subblock_duration: d.constant_subblock_duration,
        subblock_durations: d.subblock_durations.clone(),
    }
}

/// Registers the parameter consumers of slot `slot`: the element's
/// demixing and recon gain parameters, and the sub-mix element's mix gain.
pub fn register_slot_params(
    index: &mut Vec<ParamTarget>,
    slot: usize,
    element: &AudioElement,
    sub_element: &SubMixElement,
)
    ensures
        final(index)@.map_values(|t: ParamTarget| t@) == old(index)@.map_values(|t: ParamTarget| t@) + slot_targets(
            slot,
            element@,
            sub_element@,
        ),
{
    let ghost start = old(index)@.map_values(|t: ParamTarget| t@);
    let ghost params = element@.params;
    let mut i: usize = 0;
    while i < element.params.len()
        invariant
            i <= element.params@.len(),
            params == element@.params,
            params.len() == element.params@.len(),
            start == old(index)@.map_values(|t: ParamTarget| t@),
            index@.map_values(|t: ParamTarget| t@) == start + element_param_targets(slot, params, i as nat),
        decreases element.params.len() - i,
    {
        assert(params[i as int] == element.params@[i as int]@);
        let ghost before = index@.map_values(|t: ParamTarget| t@);
        match &element.params[i] {
            ElementParam::Demixing { base, .. } => {
                index.push(ParamTarget { parameter_id: base.parameter_id, slot, kind: ParamKind::Demixing, definition: copy_definition(base) });
                assert(index@.map_values(|t: ParamTarget| t@) =~= before.push(target_of(slot, ParamKind::Demixing, base@)));
            },
            ElementParam::ReconGain(base) => {
                index.push(ParamTarget { parameter_id: base.parameter_id, slot, kind: ParamKind::ReconGain, definition: copy_definition(base) });
                assert(index@.map_values(|t: ParamTarget| t@) =~= before.push(target_of(slot, ParamKind::ReconGain, base@)));
            },
            ElementParam::Unknown { .. } => {},
        }
        i = i + 1;
    }
    let base = &sub_element.element_mix_gain.base;
    let ghost before = index@.map_values(|t: ParamTarget| t@);
    index.push(ParamTarget { parameter_id: base.parameter_id, slot, kind: ParamKind::ElementMixGain, definition: copy_definition(base) });
    assert(index@.map_values(|t: ParamTarget| t@) =~= before.push(target_of(slot, ParamKind::ElementMixGain, base@)));
}

/// Registers the sub-mix's output mix gain (slot 0, unused).
pub fn register_output_gain(index: &mut Vec<ParamTarget>, sub_mix: &SubMix)
    ensures
        final(index)@.map_values(|t: ParamTarget| t@) == old(index)@.map_values(|t: ParamTarget| t@).push(
            target_of(0, ParamKind::OutputMixGain, sub_mix@.output_mix_gain.base),
        ),
{
    let base = &sub_mix.output_mix_gain.base;
    index.push(ParamTarget { parameter_id: base.parameter_id, slot: 0, kind: ParamKind::OutputMixGain, definition: copy_definition(base) });
    assert(index@.map_values(|t: ParamTarget| t@) =~= old(index)@.map_values(|t: ParamTarget| t@).push(
        target_of(0, ParamKind::OutputMixGain, sub_mix@.output_mix_gain.base),
    ));
}

/// Positions of the consumers of parameter `id`, in registration order
/// (every consumer of a repeated id gets the block).
pub open spec fn spec_targets_for(index: Seq<SpecParamTarget>, id: u32, n: nat) -> Seq<usize>
    decreases n,
{
    if n == 0 {
        Seq::empty()
    } else {
        let prev = spec_targets_for(index, id, (n - 1) as nat);
        if index[n - 1].parameter_id == id {
            prev.push((n - 1) as usize)
        } else {
            prev
        }
    }
}

pub fn targets_for(index: &[ParamTarget], id: u32) -> (r: Vec<usize>)
    ensures
        r@ == spec_targets_for(index@.map_values(|t: ParamTarget| t@), id, index@.len()),
{
    let ghost v = index@.map_values(|t: ParamTarget| t@);
    let mut out: Vec<usize> = Vec::new();
    let mut i: usize = 0;
    while i < index.len()
        invariant
            i <= index@.len(),
            v == index@.map_values(|t: ParamTarget| t@),
            out@ == spec_targets_for(v, id, i as nat),
        decreases index.len() - i,
    {
        assert(v[i as int] == index@[i as int]@);
        if index[i].parameter_id == id {
            out.push(i);
        }
        i = i + 1;
    }
    out
}

/// The batch decoder keeps one consumer per parameter id: a later
/// registration of the same id replaces an earlier one. So the block of
/// `id` goes to its last registration, if any.
pub fn batch_target_for(index: &[ParamTarget], id: u32) -> (r: Option<usize>)
    ensures
        match r {
            Some(i) => i < index@.len() && index@[i as int].parameter_id == id && forall|j: int|
                i < j < index@.len() ==> #[trigger] index@[j].parameter_id != id,
            None => forall|j: int| 0 <= j < index@.len() ==> #[trigger] index@[j].parameter_id != id,
        },
{
    let mut i: usize = index.len();
    while i > 0
        invariant
            i <= index@.len(),
            forall|j: int| i <= j < index@.len() ==> #[trigger] index@[j].parameter_id != id,
        decreases i,
    {
        if index[i - 1].parameter_id == id {
            return Some(i - 1);
        }
        i = i - 1;
    }
    None
}

/// The layout whose loudness applies to the target: the first declared
/// layout matching the target sound system (binaural for binaural), else
/// the first declared layout.
pub open spec fn spec_loudness_layout(sub: SpecSubMix, target: SoundSystem) -> Option<int> {
    if exists|k: int| 0 <= k < sub.layouts.len() && exact_layout_match(sub.layouts[k].0, target) {
        Some(
            choose|k: int|
                0 <= k < sub.layouts.len() && exact_layout_match(sub.layouts[k].0, target) && forall|j: int|
                    0 <= j < k ==> !exact_layout_match(sub.layouts[j].0, target),
        )
    } else if sub.layouts.len() > 0 {
        Some(0)
    } else {
        None
    }
}

/// A declared layout is the target itself.
pub open spec fn exact_layout_match(layout: Layout, target: SoundSystem) -> bool {
    match layout {
        Layout::LoudspeakersSsConvention { sound_system } => spec_sound_system(sound_system) == Some(target),
        Layout::Binaural => target == SoundSystem::Binaural,
        Layout::Reserved { .. } => false,
    }
}

/// The position of the layout whose `loudness_info` normalization uses.
pub fn loudness_layout(sub_mix: &SubMix, target: SoundSystem) -> (r: Option<usize>)
    ensures
        match r {
            Some(k) => spec_loudness_layout(sub_mix@, target) == Some(k as int),
            None => spec_loudness_layout(sub_mix@, target) is None,
        },
{
    let ghost sv = sub_mix@;
    let mut k: usize = 0;
    while k < sub_mix.layouts.len()
        invariant
            k <= sv.layouts.len(),
            sv == sub_mix@,
            forall|j: int| 0 <= j < k ==> !exact_layout_match(sv.layouts[j].0, target),
        decreases sub_mix.layouts.len() - k,
    {
        assert(sv.layouts[k as int] == sub_mix.layouts@[k as int]@);
        let matches = match &sub_mix.layouts[k].0 {
            Layout::LoudspeakersSsConvention { sound_system } => match SoundSystem::from_u8(*sound_system) {
                Some(s) => s == target,
                None => false,
            },
            Layout::Binaural => target == SoundSystem::Binaural,
            Layout::Reserved { .. } => false,
        };
        if matches {
            assert(exact_layout_match(sv.layouts[k as int].0, target));
            return Some(k);
        }
        k = k + 1;
    }
    if sub_mix.layouts.len() > 0 {
        Some(0)
    } else {
        None
    }
}

/// An element's substreams: one channel count per substream id, as its
/// config implies; a mismatch makes the descriptors invalid.
pub fn element_substreams(element: &AudioElement) -> (r: Result<Vec<u8>, DecodeError>)
    ensures
        match r {
            Ok(chs) => chs@ == spec_substream_channels(element@.config) && chs@.len()
                == element@.substream_ids.len(),
            Err(DecodeError::InvalidDescriptors(m)) => spec_substream_channels(element@.config).len()
                != element@.substream_ids.len() && m@ == "element "@ + decimal(element.audio_element_id as nat)
                + " declares "@ + decimal(element@.substream_ids.len()) + " substream ids but its config implies "@
                + decimal(spec_substream_channels(element@.config).len()),
            Err(_) => false,
        },
{
    let channels = substream_channels(&element.config);
    if channels.len() != element.substream_ids.len() {
        let head = format_two_numbers(
            "element ",
            element.audio_element_id as usize,
            " declares ",
            element.substream_ids.len(),
            " substream ids but its config implies ",
        );
        let tail = format_number("", channels.len(), "");
        let m = head.concat(tail.as_str());
        proof {
            reveal_strlit("");
            assert(m@ =~= "element "@ + decimal(element.audio_element_id as nat) + " declares "@ + decimal(
                element@.substream_ids.len(),
            ) + " substream ids but its config implies "@ + decimal(spec_substream_channels(element@.config).len()));
        }
        return Err(DecodeError::InvalidDescriptors(m));
    }
    Ok(channels)
}

/// When a stream is reconfigured for another mix, takes the decoders of
/// the first entry of `pool` (element id, decoder count) that match the
/// element and its substream count out of the pool: the last entry moves
/// into its place. Returns the entry's index before the removal.
pub fn take_reusable(pool: &mut Vec<(u32, usize)>, element_id: u32, substreams: usize) -> (r: Option<usize>)
    ensures
        match r {
            Some(i) => {
                &&& i < old(pool)@.len()
                &&& old(pool)@[i as int] == (element_id, substreams)
                &&& forall|j: int| 0 <= j < i ==> #[trigger] old(pool)@[j] != (element_id, substreams)
                &&& final(pool)@ == old(pool)@.update(i as int, old(pool)@.last()).drop_last()
            },
            None => {
                &&& forall|j: int| 0 <= j < old(pool)@.len() ==> #[trigger] old(pool)@[j] != (element_id, substreams)
                &&& final(pool)@ == old(pool)@
            },
        },
{
    let mut i: usize = 0;
    while i < pool.len()
        invariant
            i <= pool@.len(),
            pool@ == old(pool)@,
            forall|j: int| 0 <= j < i ==> #[trigger] pool@[j] != (element_id, substreams),
        decreases pool.len() - i,
    {
        let (id, n) = pool[i];
        if id == element_id && n == substreams {
            pool.swap_remove(i);
            return Some(i);
        }
        i = i + 1;
    }
    None
}

/// The sequence header, when there is one, declares a requested profile.
pub open spec fn declared_profiles_ok(header: Option<SequenceHeader>, requested: ProfileSet) -> bool {
    match header {
        None => true,
        Some(h) => (profile_bit(h.primary_profile) | profile_bit(h.additional_profile)) & requested.bits() != 0,
    }
}

/// Which mix presentations fit some requested profile.
pub open spec fn spec_supported(p: crate::presentation::SpecDescriptors, requested: ProfileSet) -> Seq<bool> {
    Seq::new(
        p.mix_presentations.len(),
        |i: int| spec_filter_profiles(p.mix_presentations[i], p.audio_elements, p.codec_configs, requested.bits()) != 0,
    )
}

/// Configures a stream decoder's choice of mix presentation, check by
/// check: there must be a mix presentation; a sequence header must declare
/// a requested profile; the selection is resolved among the mixes that fit
/// a requested profile; the chosen mix must have exactly one sub-mix.
pub fn choose_mix(parsed: &Descriptors, requested: ProfileSet, selection: MixSelection, target: SoundSystem) -> (r: Result<
    usize,
    DecodeError,
>)
    ensures
        ({
            let p = parsed@;
            let choice = spec_select_mix(p.mix_presentations, spec_supported(p, requested), selection, target);
            match r {
                Ok(i) => p.mix_presentations.len() > 0 && declared_profiles_ok(p.sequence_header, requested) && choice
                    == MixChoice::Index(i as int) && p.mix_presentations[i as int].sub_mixes.len() == 1,
                Err(DecodeError::InvalidDescriptors(m)) => (p.mix_presentations.len() == 0 && m@ == "no mix presentations"@)
                    || (p.mix_presentations.len() > 0 && declared_profiles_ok(p.sequence_header, requested) && (
                (choice == MixChoice::Missing && m@ == "no such mix presentation"@) || (choice matches MixChoice::Index(i)
                    && p.mix_presentations[i].sub_mixes.len() != 1 && m@
                    == "IAMF v1.1 requires exactly one sub mix per mix presentation"@))),
                Err(DecodeError::UnsupportedProfile(m)) => p.mix_presentations.len() > 0 && (
                (!declared_profiles_ok(p.sequence_header, requested) && m@ == "stream declares profiles "@ + decimal(
                    p.sequence_header->Some_0.primary_profile as nat,
                ) + "/"@ + decimal(p.sequence_header->Some_0.additional_profile as nat) + " outside the requested set"@) || (declared_profiles_ok(p.sequence_header, requested) && choice
                    == MixChoice::Unsupported(m@))),
                Err(_) => false,
            }
        }),
{
    if parsed.mix_presentations.len() == 0 {
        return Err(DecodeError::InvalidDescriptors("no mix presentations".to_owned()));
    }
    if let Some(header) = &parsed.sequence_header {
        check_declared_profiles(header, requested)?;
    }
    let supported = supported_mixes(parsed, requested);
    assert(supported@ =~= spec_supported(parsed@, requested));
    assert(views(parsed.mix_presentations@) == parsed@.mix_presentations);
    let index = select_mix_index(&parsed.mix_presentations, &supported, selection, target)?;
    proof {
        lemma_selected_mix_is_supported(views(parsed.mix_presentations@), supported@, selection, target);
    }
    if parsed.mix_presentations[index].sub_mixes.len() != 1 {
        return Err(DecodeError::InvalidDescriptors("IAMF v1.1 requires exactly one sub mix per mix presentation".to_owned()));
    }
    Ok(index)
}

/// How one sub-mix element is decoded: its audio element and codec config
/// (as positions in the descriptors), its substreams' channel counts and
/// its headphones rendering mode.
pub struct SlotPlan {
    pub element: usize,
    pub codec_config: usize,
    pub channels: Vec<u8>,
    pub headphones_rendering_mode: u8,
}

/// The decoding set-up of a sub-mix: one slot per element, in order, the
/// parameter consumers, and the frame size.
pub struct SetupPlan {
    pub slots: Vec<SlotPlan>,
    pub params: Vec<ParamTarget>,
    pub frame_size: u32,
}

/// A sub-mix element can be set up: its audio element and codec config
/// exist, the codec is supported, and its config implies one channel
/// count per substream id (at least one).
#[verifier::opaque]
pub open spec fn element_ready(p: crate::presentation::SpecDescriptors, se: SpecSubMixElement, supported: Seq<bool>) -> bool {
    match element_index(p.audio_elements, se.audio_element_id) {
        None => false,
        Some(e) => match codec_config_index(p.codec_configs, p.audio_elements[e].codec_config_id) {
            None => false,
            Some(c) => {
                let chs = spec_substream_channels(p.audio_elements[e].config);
                supported[c] && chs.len() > 0 && chs.len() == p.audio_elements[e].substream_ids.len()
            },
        },
    }
}

/// The error setting up a sub-mix element gives: an unknown element or
/// codec config, an unsupported codec, or a substream count mismatch, in
/// that order of checks.
#[verifier::opaque]
pub open spec fn element_error(
    p: crate::presentation::SpecDescriptors,
    se: SpecSubMixElement,
    supported: Seq<bool>,
    err: DecodeError,
) -> bool {
    match element_index(p.audio_elements, se.audio_element_id) {
        None => err matches DecodeError::InvalidDescriptors(m) && m@ == "mix references unknown element "@ + decimal(
            se.audio_element_id as nat,
        ) + ""@,
        Some(e) => match codec_config_index(p.codec_configs, p.audio_elements[e].codec_config_id) {
            None => err matches DecodeError::InvalidDescriptors(m) && m@ == "element references unknown codec config "@
                + decimal(p.audio_elements[e].codec_config_id as nat) + ""@,
            Some(c) => if !supported[c] {
                err is UnsupportedCodec
            } else {
                err matches DecodeError::InvalidDescriptors(m) && m@ == "substream count mismatch"@
            },
        },
    }
}

/// The parameter consumers of the first `n` elements of a sub-mix.
pub open spec fn setup_targets(p: crate::presentation::SpecDescriptors, sub: SpecSubMix, n: nat) -> Seq<SpecParamTarget>
    decreases n,
{
    if n == 0 {
        Seq::empty()
    } else {
        let se = sub.elements[n - 1];
        let e = element_index(p.audio_elements, se.audio_element_id)->Some_0;
        setup_targets(p, sub, (n - 1) as nat) + slot_targets((n - 1) as usize, p.audio_elements[e], se)
    }
}

/// Sets up one sub-mix element (see `plan_setup`).
fn plan_element(parsed: &Descriptors, se: &SubMixElement, supported: &[bool]) -> (r: Result<SlotPlan, DecodeError>)
    requires
        supported@.len() == parsed@.codec_configs.len(),
    ensures
        match r {
            Ok(sl) => {
                &&& element_ready(parsed@, se@, supported@)
                &&& element_index(parsed@.audio_elements, se.audio_element_id) == Some(sl.element as int)
                &&& codec_config_index(parsed@.codec_configs, parsed@.audio_elements[sl.element as int].codec_config_id)
                    == Some(sl.codec_config as int)
                &&& sl.channels@ == spec_substream_channels(parsed@.audio_elements[sl.element as int].config)
                &&& sl.headphones_rendering_mode == se.headphones_rendering_mode
                &&& sl.element < parsed.audio_elements@.len()
                &&& sl.codec_config < parsed.codec_configs@.len()
            },
            Err(err) => !element_ready(parsed@, se@, supported@) && element_error(parsed@, se@, supported@, err),
        },
{
    let ghost p = parsed@;
    proof {
        reveal(element_ready);
        reveal(element_error);
    }
    let (e, c) = match resolve_sub_element(parsed, se.audio_element_id) {
        Ok(ec) => ec,
        Err(err) => {
            return Err(err);
        },
    };
    let element = &parsed.audio_elements[e];
    assert(p.audio_elements[e as int] == element@);
    if !supported[c] {
        return Err(DecodeError::UnsupportedCodec);
    }
    let channels = substream_channels(&element.config);
    match check_substream_count(&channels, &element.substream_ids) {
        Ok(()) => {},
        Err(err) => {
            assert(element@.substream_ids.len() == element.substream_ids@.len());
            return Err(err);
        },
    }
    assert(element@.substream_ids.len() == element.substream_ids@.len());
    Ok(SlotPlan { element: e, codec_config: c, channels, headphones_rendering_mode: se.headphones_rendering_mode })
}

/// Sets up the decoding of `sub_mix`, element by element: each must be
/// ready (`supported[c]` says whether a codec adapter handles codec config
/// `c`); each registers its parameter consumers, then the sub-mix its
/// output gain. The frame size is that of the last element's codec config
/// (0 without elements). The first element that is not ready gives its
/// error.
#[verifier::rlimit(50)]
pub fn plan_setup(parsed: &Descriptors, sub_mix: &SubMix, supported: &[bool]) -> (r: Result<SetupPlan, DecodeError>)
    requires
        supported@.len() == parsed@.codec_configs.len(),
    ensures
        ({
            let p = parsed@;
            let sub = sub_mix@;
            match r {
                Ok(plan) => {
                    &&& plan.slots@.len() == sub.elements.len()
                    &&& forall|k: int| 0 <= k < sub.elements.len() ==> #[trigger] element_ready(p, sub.elements[k], supported@)
                    &&& forall|k: int| 0 <= k < sub.elements.len() ==> {
                        let sl = #[trigger] plan.slots@[k];
                        &&& element_index(p.audio_elements, sub.elements[k].audio_element_id) == Some(sl.element as int)
                        &&& codec_config_index(p.codec_configs, p.audio_elements[sl.element as int].codec_config_id)
                            == Some(sl.codec_config as int)
                        &&& sl.channels@ == spec_substream_channels(p.audio_elements[sl.element as int].config)
                        &&& sl.headphones_rendering_mode == sub.elements[k].headphones_rendering_mode
                    }
                    &&& plan.params@.map_values(|t: ParamTarget| t@) == setup_targets(p, sub, sub.elements.len()).push(
                        target_of(0, ParamKind::OutputMixGain, sub.output_mix_gain.base),
                    )
                    &&& plan.frame_size == if sub.elements.len() == 0 {
                        0u32
                    } else {
                        p.codec_configs[plan.slots@[sub.elements.len() - 1].codec_config as int].num_samples_per_frame
                    }
                },
                Err(err) => exists|k: int|
                    0 <= k < sub.elements.len() && (forall|j: int| 0 <= j < k ==> #[trigger] element_ready(p, sub.elements[j], supported@))
                        && !element_ready(p, #[trigger] sub.elements[k], supported@) && element_error(
                        p,
                        sub.elements[k],
                        supported@,
                        err,
                    ),
            }
        }),
{
    let ghost p = parsed@;
    let ghost sub = sub_mix@;
    let mut slots: Vec<SlotPlan> = Vec::new();
    let mut params: Vec<ParamTarget> = Vec::new();
    let mut frame_size: u32 = 0;
    let mut k: usize = 0;
    while k < sub_mix.elements.len()
        invariant
            p == parsed@,
            sub == sub_mix@,
            supported@.len() == p.codec_configs.len(),
            k <= sub.elements.len(),
            sub.elements.len() == sub_mix.elements@.len(),
            slots@.len() == k,
            forall|j: int| 0 <= j < k ==> #[trigger] element_ready(p, sub.elements[j], supported@),
            forall|j: int| 0 <= j < k ==> {
                let sl = #[trigger] slots@[j];
                &&& element_index(p.audio_elements, sub.elements[j].audio_element_id) == Some(sl.element as int)
                &&& codec_config_index(p.codec_configs, p.audio_elements[sl.element as int].codec_config_id) == Some(
                    sl.codec_config as int,
                )
                &&& sl.channels@ == spec_substream_channels(p.audio_elements[sl.element as int].config)
                &&& sl.headphones_rendering_mode == sub.elements[j].headphones_rendering_mode
            },
            params@.map_values(|t: ParamTarget| t@) == setup_targets(p, sub, k as nat),
            frame_size == if k == 0 {
                0u32
            } else {
                p.codec_configs[slots@[k - 1].codec_config as int].num_samples_per_frame
            },
        decreases sub_mix.elements.len() - k,
    {
        let se = &sub_mix.elements[k];
        assert(sub.elements[k as int] == se@);
        let slot = match plan_element(parsed, se, supported) {
            Ok(sl) => sl,
            Err(err) => {
                return Err(err);
            },
        };
        let element = &parsed.audio_elements[slot.element];
        assert(p.audio_elements[slot.element as int] == element@);
        assert(p.codec_configs[slot.codec_config as int] == parsed.codec_configs@[slot.codec_config as int]@);
        frame_size = parsed.codec_configs[slot.codec_config].num_samples_per_frame;
        let ghost before = params@.map_values(|t: ParamTarget| t@);
        register_slot_params(&mut params, k, element, se);
        proof {
            assert(setup_targets(p, sub, (k + 1) as nat) == before + slot_targets(k, element@, se@));
        }
        slots.push(slot);
        k = k + 1;
    }
    register_output_gain(&mut params, sub_mix);
    Ok(SetupPlan { slots, params, frame_size })
}

/// What the streaming decoder does with one OBU of its buffered input.
pub enum StreamAction {
    /// Decodes `data` with the decoder of substream `index` of slot `slot`,
    /// queueing the frame with its trims.
    DecodeFrame { slot: usize, index: usize, data: Vec<u8>, trim_start: u32, trim_end: u32 },
    /// Parses the parameter block `payload` for these consumers (positions
    /// in the parameter index).
    ApplyParameters { targets: Vec<usize>, payload: Vec<u8> },
    /// Nothing to do: a frame of a substream outside the mix, a parameter
    /// block nothing consumes, an aligned temporal delimiter, or another
    /// OBU (descriptor copies included).
    Skip,
}

/// `StreamAction` as values.
pub enum SpecStreamAction {
    DecodeFrame { slot: int, index: int, data: Seq<u8>, trim_start: u32, trim_end: u32 },
    ApplyParameters { targets: Seq<usize>, payload: Seq<u8> },
    Skip,
}

impl View for StreamAction {
    type V = SpecStreamAction;

    open spec fn view(&self) -> SpecStreamAction {
        match self {
            StreamAction::DecodeFrame { slot, index, data, trim_start, trim_end } => SpecStreamAction::DecodeFrame {
                slot: *slot as int,
                index: *index as int,
                data: data@,
                trim_start: *trim_start,
                trim_end: *trim_end,
            },
            StreamAction::ApplyParameters { targets, payload } => SpecStreamAction::ApplyParameters {
                targets: targets@,
                payload: payload@,
            },
            StreamAction::Skip => SpecStreamAction::Skip,
        }
    }
}

/// One step of streaming decoding over buffered bytes `data`: `None` when
/// the bytes end inside the first OBU; else the action for that OBU and
/// the bytes it took; or the message of a corrupt packet (a malformed OBU
/// or audio frame, an unreadable parameter id, or a temporal delimiter
/// while the substreams' queues hold unequal numbers of frames).
pub open spec fn spec_stream_step(
    data: Seq<u8>,
    slot_ids: Seq<Seq<u32>>,
    index: Seq<SpecParamTarget>,
    depths: Seq<usize>,
) -> Result<Option<(SpecStreamAction, int)>, Seq<char>> {
    match spec_next_obu(data) {
        Err(m) => Err(m),
        Ok(None) => Ok(None),
        Ok(Some((obu, n))) => match crate::frames::spec_audio_frame(obu) {
            Err(e) => Err(e.spec_message()),
            Ok(Some(f)) => Ok(
                Some(
                    (
                        match spec_route(slot_ids, f.substream_id, slot_ids.len()) {
                            Some((sl, k)) => SpecStreamAction::DecodeFrame {
                                slot: sl,
                                index: k,
                                data: f.data,
                                trim_start: f.num_samples_to_trim_at_start,
                                trim_end: f.num_samples_to_trim_at_end,
                            },
                            None => SpecStreamAction::Skip,
                        },
                        n,
                    ),
                ),
            ),
            Ok(None) => if obu.header.obu_type == ObuType::ParameterBlock {
                match crate::params::spec_peek_parameter_id(obu.payload) {
                    Err(e) => Err(e.spec_message()),
                    Ok(id) => {
                        let t = spec_targets_for(index, id, index.len());
                        Ok(
                            Some(
                                (
                                    if t.len() == 0 {
                                        SpecStreamAction::Skip
                                    } else {
                                        SpecStreamAction::ApplyParameters { targets: t, payload: obu.payload }
                                    },
                                    n,
                                ),
                            ),
                        )
                    },
                }
            } else if obu.header.obu_type == ObuType::TemporalDelimiter {
                if exists|i: int| 0 <= i < depths.len() && #[trigger] depths[i] != depths[0] {
                    Err("temporal delimiter mid-unit: substreams have unequal frame counts"@)
                } else {
                    Ok(Some((SpecStreamAction::Skip, n)))
                }
            } else {
                Ok(Some((SpecStreamAction::Skip, n)))
            },
        },
    }
}

/// Decides what to do with the next OBU of the buffered bytes `data`, for
/// slots with substream ids `slot_ids`, parameter consumers `index` and
/// queued frames `depths` per substream. The caller performs the action
/// (codec decoding, parameter parsing) and drops the bytes taken.
pub fn stream_step(data: &[u8], slot_ids: &[Vec<u32>], index: &[ParamTarget], depths: &[usize]) -> (r: Result<
    Option<(StreamAction, usize)>,
    DecodeError,
>)
    ensures
        match r {
            Ok(Some((a, n))) => spec_stream_step(data@, views(slot_ids@), index@.map_values(|t: ParamTarget| t@), depths@)
                == Ok::<Option<(SpecStreamAction, int)>, Seq<char>>(Some((a@, n as int))),
            Ok(None) => spec_stream_step(data@, views(slot_ids@), index@.map_values(|t: ParamTarget| t@), depths@)
                == Ok::<Option<(SpecStreamAction, int)>, Seq<char>>(None),
            Err(DecodeError::CorruptPacket(m)) => spec_stream_step(
                data@,
                views(slot_ids@),
                index@.map_values(|t: ParamTarget| t@),
                depths@,
            ) == Err::<Option<(SpecStreamAction, int)>, Seq<char>>(m@),
            Err(_) => false,
        },
{
    let (obu, n) = match next_obu(data) {
        Ok(Some(on)) => on,
        Ok(None) => {
            return Ok(None);
        },
        Err(e) => {
            return Err(e);
        },
    };
    let frame = match crate::frames::AudioFrame::from_obu(&obu) {
        Ok(f) => f,
        Err(e) => {
            return Err(DecodeError::CorruptPacket(e.message()));
        },
    };
    if let Some(f) = frame {
        let action = match route_substream(slot_ids, f.substream_id) {
            Some((sl, k)) => StreamAction::DecodeFrame {
                slot: sl,
                index: k,
                data: vstd::slice::slice_to_vec(f.data),
                trim_start: f.num_samples_to_trim_at_start,
                trim_end: f.num_samples_to_trim_at_end,
            },
            None => StreamAction::Skip,
        };
        return Ok(Some((action, n)));
    }
    if obu.header.obu_type == ObuType::ParameterBlock {
        let id = match crate::params::ParameterBlock::peek_parameter_id(obu.payload) {
            Ok(id) => id,
            Err(e) => {
                return Err(DecodeError::CorruptPacket(e.message()));
            },
        };
        let targets = targets_for(index, id);
        if targets.len() == 0 {
            return Ok(Some((StreamAction::Skip, n)));
        }
        return Ok(Some((StreamAction::ApplyParameters { targets, payload: vstd::slice::slice_to_vec(obu.payload) }, n)));
    }
    if obu.header.obu_type == ObuType::TemporalDelimiter {
        check_unit_alignment(depths)?;
    }
    Ok(Some((StreamAction::Skip, n)))
}

} // verus!
