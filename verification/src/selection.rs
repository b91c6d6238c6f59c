//! What automatic mix selection does for binaural output.

use vstd::prelude::*;

use crate::descriptors::{Layout, SpecMixPresentation};
use crate::layout::{spec_sound_system, SoundSystem};
use crate::stream::{declares_target, layout_matches, lemma_auto_select_least, qualifies, spec_auto_select};

verus! {

/// The layout is binaural, or loudspeaker sound system A (stereo).
pub open spec fn binaural_or_stereo(l: Layout) -> bool {
    l == Layout::Binaural || l == (Layout::LoudspeakersSsConvention { sound_system: 0 })
}

/// Some sub-mix of the mix declares a binaural or stereo layout.
pub open spec fn declares_binaural_or_stereo(m: SpecMixPresentation) -> bool {
    exists|s: int, k: int|
        0 <= s < m.sub_mixes.len() && 0 <= k < m.sub_mixes[s].layouts.len() && #[trigger] binaural_or_stereo(
            m.sub_mixes[s].layouts[k].0,
        )
}

proof fn lemma_binaural_target(m: SpecMixPresentation)
    ensures
        declares_target(m, SoundSystem::Binaural) == declares_binaural_or_stereo(m),
{
    assert forall|l: Layout| #[trigger] layout_matches(l, SoundSystem::Binaural) == binaural_or_stereo(l) by {
        match l {
            Layout::LoudspeakersSsConvention { sound_system } => {
                assert(spec_sound_system(sound_system) == Some(SoundSystem::A) <==> sound_system == 0);
            },
            _ => {},
        }
    }
    if declares_target(m, SoundSystem::Binaural) {
        let (s, k) = choose|s: int, k: int|
            0 <= s < m.sub_mixes.len() && 0 <= k < m.sub_mixes[s].layouts.len() && #[trigger] layout_matches(
                m.sub_mixes[s].layouts[k].0,
                SoundSystem::Binaural,
            );
        assert(binaural_or_stereo(m.sub_mixes[s].layouts[k].0));
    }
    if declares_binaural_or_stereo(m) {
        let (s, k) = choose|s: int, k: int|
            0 <= s < m.sub_mixes.len() && 0 <= k < m.sub_mixes[s].layouts.len() && #[trigger] binaural_or_stereo(
                m.sub_mixes[s].layouts[k].0,
            );
        assert(layout_matches(m.sub_mixes[s].layouts[k].0, SoundSystem::Binaural));
    }
}

/// For binaural output, automatic selection picks the first supported mix
/// authored for binaural or stereo playback when there is one (a mix
/// declaring the binaural layout counts), before any other fallback.
pub proof fn lemma_binaural_selection(mixes: Seq<SpecMixPresentation>, supported: Seq<bool>)
    requires
        mixes.len() == supported.len(),
    ensures
        (exists|k: int| 0 <= k < mixes.len() && supported[k] && #[trigger] declares_binaural_or_stereo(mixes[k])) ==> {
            let r = spec_auto_select(mixes, supported, SoundSystem::Binaural);
            &&& r is Index
            &&& 0 <= r->Index_0 < mixes.len()
            &&& supported[r->Index_0]
            &&& declares_binaural_or_stereo(mixes[r->Index_0])
            &&& forall|j: int| 0 <= j < r->Index_0 ==> !(supported[j] && #[trigger] declares_binaural_or_stereo(mixes[j]))
        },
{
    lemma_auto_select_least(mixes, supported, SoundSystem::Binaural);
    assert forall|j: int| 0 <= j < mixes.len() implies #[trigger] qualifies(mixes, supported, SoundSystem::Binaural, j)
        == (supported[j] && declares_binaural_or_stereo(mixes[j])) by {
        lemma_binaural_target(mixes[j]);
    }
    if exists|k: int| 0 <= k < mixes.len() && supported[k] && #[trigger] declares_binaural_or_stereo(mixes[k]) {
        let k = choose|k: int| 0 <= k < mixes.len() && supported[k] && #[trigger] declares_binaural_or_stereo(mixes[k]);
        assert(qualifies(mixes, supported, SoundSystem::Binaural, k));
        let r = spec_auto_select(mixes, supported, SoundSystem::Binaural);
        let i = r->Index_0;
        assert forall|j: int| 0 <= j < i implies !(supported[j] && #[trigger] declares_binaural_or_stereo(mixes[j])) by {
            assert(!qualifies(mixes, supported, SoundSystem::Binaural, j));
        }
    }
}

} // verus!
