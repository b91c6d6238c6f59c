//! The descriptors of an IA sequence, and the per-temporal-unit trimming
//! of decoded planes.

use vstd::prelude::*;

use crate::decode_error::DecodeError;
use crate::element::FramePcm;
use crate::descriptors::{
    self, codec_config_index, element_index, find_codec_config, find_element, find_mix, mix_index, spec_descriptor,
    AudioElement, CodecConfig, Descriptor, MixPresentation, SequenceHeader, SpecAudioElement, SpecCodecConfig,
    SpecDescriptor, SpecMixPresentation, SubMix,
};
use crate::obu::{lemma_parse_obu_advances, spec_iter_step, IterState, ObuIter};
use crate::reader::views;

verus! {

/// All descriptor OBUs of an IA sequence, first copy wins for redundant
/// re-transmissions.
pub struct Descriptors {
    pub sequence_header: Option<SequenceHeader>,
    pub codec_configs: Vec<CodecConfig>,
    pub audio_elements: Vec<AudioElement>,
    pub mix_presentations: Vec<MixPresentation>,
}

/// The descriptors as values.
pub struct SpecDescriptors {
    pub sequence_header: Option<SequenceHeader>,
    pub codec_configs: Seq<SpecCodecConfig>,
    pub audio_elements: Seq<SpecAudioElement>,
    pub mix_presentations: Seq<SpecMixPresentation>,
}

impl View for Descriptors {
    type V = SpecDescriptors;

    open spec fn view(&self) -> SpecDescriptors {
        SpecDescriptors {
            sequence_header: self.sequence_header,
            codec_configs: views(self.codec_configs@),
            audio_elements: views(self.audio_elements@),
            mix_presentations: views(self.mix_presentations@),
        }
    }
}

impl Default for Descriptors {
    fn default() -> (d: Self)
        ensures
            d@ == empty_descriptors(),
    {
        let d = Descriptors {
            sequence_header: None,
            codec_configs: Vec::new(),
            audio_elements: Vec::new(),
            mix_presentations: Vec::new(),
        };
        assert(d@.codec_configs =~= Seq::empty());
        assert(d@.audio_elements =~= Seq::empty());
        assert(d@.mix_presentations =~= Seq::empty());
        d
    }
}

pub open spec fn empty_descriptors() -> SpecDescriptors {
    SpecDescriptors {
        sequence_header: None,
        codec_configs: Seq::empty(),
        audio_elements: Seq::empty(),
        mix_presentations: Seq::empty(),
    }
}

/// Records one descriptor unless one of its kind with the same id (for the
/// sequence header: any) is already recorded.
pub open spec fn add_descriptor(acc: SpecDescriptors, d: Option<SpecDescriptor>) -> SpecDescriptors {
    match d {
        Some(SpecDescriptor::SequenceHeader(h)) => if acc.sequence_header is None {
            SpecDescriptors { sequence_header: Some(h), ..acc }
        } else {
            acc
        },
        Some(SpecDescriptor::CodecConfig(c)) => if codec_config_index(acc.codec_configs, c.codec_config_id) is None {
            SpecDescriptors { codec_configs: acc.codec_configs.push(c), ..acc }
        } else {
            acc
        },
        Some(SpecDescriptor::AudioElement(e)) => if element_index(acc.audio_elements, e.audio_element_id) is None {
            SpecDescriptors { audio_elements: acc.audio_elements.push(e), ..acc }
        } else {
            acc
        },
        Some(SpecDescriptor::MixPresentation(m)) => if mix_index(acc.mix_presentations, m.mix_presentation_id) is None {
            SpecDescriptors { mix_presentations: acc.mix_presentations.push(m), ..acc }
        } else {
            acc
        },
        None => acc,
    }
}

/// Walks the OBUs from `st`, recording descriptors into `acc`; the first
/// malformed OBU or descriptor ends the walk with its error message.
pub open spec fn spec_collect_from(st: IterState, acc: SpecDescriptors) -> Result<SpecDescriptors, Seq<char>>
    decreases st.input.len() - st.cursor,
{
    if st.failed || st.cursor >= st.input.len() {
        Ok(acc)
    } else {
        match crate::obu::spec_parse_obu(st.input, st.cursor) {
            Err(e) => Err(e.spec_message()),
            Ok((obu, p)) => match spec_descriptor(obu) {
                Err(e) => Err(e.spec_message()),
                Ok(d) => {
                    proof {
                        lemma_parse_obu_advances(st.input, st.cursor);
                    }
                    spec_collect_from(IterState { cursor: p, ..st }, add_descriptor(acc, d))
                },
            },
        }
    }
}

/// The descriptors of a whole IA sequence, or the message of its first
/// error.
pub open spec fn spec_collect(data: Seq<u8>) -> Result<SpecDescriptors, Seq<char>> {
    spec_collect_from(IterState { input: data, cursor: 0, failed: false }, empty_descriptors())
}

impl Descriptors {
    /// Parses every descriptor OBU of `data`. Redundant copies (same id,
    /// or a second sequence header) are dropped; other OBUs are skipped.
    pub fn collect(data: &[u8]) -> (res: Result<Self, DecodeError>)
        ensures
            match res {
                Ok(d) => spec_collect(data@) == Ok::<SpecDescriptors, Seq<char>>(d@),
                Err(DecodeError::InvalidDescriptors(m)) => spec_collect(data@) == Err::<SpecDescriptors, Seq<char>>(
                    m@,
                ),
                Err(_) => false,
            },
    {
        let mut out = Descriptors::default();
        let mut it = ObuIter::new(data);
        loop
            invariant
                it.state().input == data@,
                !it.state().failed,
                spec_collect_from(it.state(), out@) == spec_collect(data@),
            decreases data@.len() - it.state().cursor,
        {
            let ghost before = it.state();
            let item = it.next();
            let obu = match item {
                None => {
                    return Ok(out);
                },
                Some(Err(e)) => {
                    return Err(DecodeError::InvalidDescriptors(e.message()));
                },
                Some(Ok(obu)) => obu,
            };
            proof {
                lemma_parse_obu_advances(before.input, before.cursor);
            }
            match descriptors::parse(&obu) {
                Err(e) => {
                    return Err(DecodeError::InvalidDescriptors(e.message()));
                },
                Ok(d) => {
                    out.add(d);
                },
            }
        }
    }

    /// Records `d` unless it repeats a recorded descriptor.
    fn add(&mut self, d: Option<Descriptor>)
        ensures
            final(self)@ == add_descriptor(old(self)@, match d {
                Some(x) => Some(x@),
                None => None,
            }),
    {
        match d {
            Some(Descriptor::SequenceHeader(h)) => {
                if self.sequence_header.is_none() {
                    self.sequence_header = Some(h);
                }
            },
            Some(Descriptor::CodecConfig(cc)) => {
                if find_codec_config(&self.codec_configs, cc.codec_config_id).is_none() {
                    self.codec_configs.push(cc);
                    proof {
                        assert(views(self.codec_configs@) =~= views(old(self).codec_configs@).push(cc@));
                    }
                }
            },
            Some(Descriptor::AudioElement(ae)) => {
                if find_element(&self.audio_elements, ae.audio_element_id).is_none() {
                    self.audio_elements.push(ae);
                    proof {
                        assert(views(self.audio_elements@) =~= views(old(self).audio_elements@).push(ae@));
                    }
                }
            },
            Some(Descriptor::MixPresentation(mp)) => {
                if find_mix(&self.mix_presentations, mp.mix_presentation_id).is_none() {
                    self.mix_presentations.push(mp);
                    proof {
                        assert(views(self.mix_presentations@) =~= views(old(self).mix_presentations@).push(mp@));
                    }
                }
            },
            None => {},
        }
    }

    /// The first audio element with `id`.
    pub fn element(&self, id: u32) -> (r: Option<&AudioElement>)
        ensures
            match r {
                Some(e) => element_index(self@.audio_elements, id) matches Some(k) && e@ == self@.audio_elements[k],
                None => element_index(self@.audio_elements, id) is None,
            },
    {
        match find_element(&self.audio_elements, id) {
            Some(k) => Some(&self.audio_elements[k]),
            None => None,
        }
    }

    /// The first codec config with `id`.
    pub fn codec_config(&self, id: u32) -> (r: Option<&CodecConfig>)
        ensures
            match r {
                Some(c) => codec_config_index(self@.codec_configs, id) matches Some(k) && c@ == self@.codec_configs[k],
                None => codec_config_index(self@.codec_configs, id) is None,
            },
    {
        match find_codec_config(&self.codec_configs, id) {
            Some(k) => Some(&self.codec_configs[k]),
            None => None,
        }
    }
}

impl Descriptors {
    /// The sub-mix a presentation decoder renders: that of mix presentation
    /// `index`, which must exist and have exactly one sub-mix.
    pub fn presentation_sub_mix(&self, index: usize) -> (r: Result<&SubMix, DecodeError>)
        ensures
            match r {
                Ok(sub) => index < self@.mix_presentations.len() && self@.mix_presentations[index as int].sub_mixes.len()
                    == 1 && sub@ == self@.mix_presentations[index as int].sub_mixes[0],
                Err(DecodeError::InvalidDescriptors(m)) => (index >= self@.mix_presentations.len() && m@
                    == "no such mix presentation"@) || (index < self@.mix_presentations.len()
                    && self@.mix_presentations[index as int].sub_mixes.len() != 1 && m@
                    == "IAMF v1.1 requires exactly one sub mix per mix presentation"@),
                Err(_) => false,
            },
    {
        if index >= self.mix_presentations.len() {
            return Err(DecodeError::InvalidDescriptors("no such mix presentation".to_owned()));
        }
        let mix = &self.mix_presentations[index];
        assert(self@.mix_presentations[index as int] == mix@);
        if mix.sub_mixes.len() != 1 {
            return Err(DecodeError::InvalidDescriptors("IAMF v1.1 requires exactly one sub mix per mix presentation".to_owned()));
        }
        assert(mix@.sub_mixes[0] == mix.sub_mixes@[0]@);
        Ok(&mix.sub_mixes[0])
    }
}

/// No two recorded codec configs, audio elements or mix presentations
/// share an id.
pub open spec fn unique_ids(d: SpecDescriptors) -> bool {
    &&& forall|i: int, j: int|
        0 <= i < j < d.codec_configs.len() ==> #[trigger] d.codec_configs[i].codec_config_id
            != #[trigger] d.codec_configs[j].codec_config_id
    &&& forall|i: int, j: int|
        0 <= i < j < d.audio_elements.len() ==> #[trigger] d.audio_elements[i].audio_element_id
            != #[trigger] d.audio_elements[j].audio_element_id
    &&& forall|i: int, j: int|
        0 <= i < j < d.mix_presentations.len() ==> #[trigger] d.mix_presentations[i].mix_presentation_id
            != #[trigger] d.mix_presentations[j].mix_presentation_id
}

proof fn lemma_add_keeps_unique(acc: SpecDescriptors, d: Option<SpecDescriptor>)
    requires
        unique_ids(acc),
    ensures
        unique_ids(add_descriptor(acc, d)),
{
    let r = add_descriptor(acc, d);
    match d {
        Some(SpecDescriptor::CodecConfig(c)) => {
            if codec_config_index(acc.codec_configs, c.codec_config_id) is None {
                assert forall|i: int, j: int| 0 <= i < j < r.codec_configs.len() implies #[trigger] r.codec_configs[i].codec_config_id
                    != #[trigger] r.codec_configs[j].codec_config_id by {
                    if j == acc.codec_configs.len() {
                        assert(r.codec_configs[i] == acc.codec_configs[i]);
                    }
                }
            }
        },
        Some(SpecDescriptor::AudioElement(e)) => {
            if element_index(acc.audio_elements, e.audio_element_id) is None {
                assert forall|i: int, j: int| 0 <= i < j < r.audio_elements.len() implies #[trigger] r.audio_elements[i].audio_element_id
                    != #[trigger] r.audio_elements[j].audio_element_id by {
                    if j == acc.audio_elements.len() {
                        assert(r.audio_elements[i] == acc.audio_elements[i]);
                    }
                }
            }
        },
        Some(SpecDescriptor::MixPresentation(m)) => {
            if mix_index(acc.mix_presentations, m.mix_presentation_id) is None {
                assert forall|i: int, j: int| 0 <= i < j < r.mix_presentations.len() implies #[trigger] r.mix_presentations[i].mix_presentation_id
                    != #[trigger] r.mix_presentations[j].mix_presentation_id by {
                    if j == acc.mix_presentations.len() {
                        assert(r.mix_presentations[i] == acc.mix_presentations[i]);
                    }
                }
            }
        },
        _ => {},
    }
}

proof fn lemma_collect_from_unique(st: IterState, acc: SpecDescriptors)
    requires
        unique_ids(acc),
    ensures
        spec_collect_from(st, acc) matches Ok(d) ==> unique_ids(d),
    decreases st.input.len() - st.cursor,
{
    if !(st.failed || st.cursor >= st.input.len()) {
        lemma_parse_obu_advances(st.input, st.cursor);
        match crate::obu::spec_parse_obu(st.input, st.cursor) {
            Ok((obu, p)) => match spec_descriptor(obu) {
                Ok(d) => {
                    lemma_add_keeps_unique(acc, d);
                    lemma_collect_from_unique(IterState { cursor: p, ..st }, add_descriptor(acc, d));
                },
                Err(_) => {},
            },
            Err(_) => {},
        }
    }
}

/// Redundant copies never duplicate a descriptor: in the collected
/// descriptors, codec config ids, audio element ids and mix presentation
/// ids are each unique (the first copy wins).
pub proof fn lemma_collected_ids_unique(data: Seq<u8>)
    ensures
        spec_collect(data) matches Ok(d) ==> unique_ids(d),
{
    lemma_collect_from_unique(IterState { input: data, cursor: 0, failed: false }, empty_descriptors());
}

/// The first SpecCodecConfig in `s` with `id`.
pub open spec fn first_config(s: Seq<SpecCodecConfig>, id: u32) -> Option<SpecCodecConfig>
    decreases s.len(),
{
    if s.len() == 0 {
        None
    } else {
        match first_config(s.drop_last(), id) {
            Some(x) => Some(x),
            None => if s.last().codec_config_id == id {
                Some(s.last())
            } else {
                None
            },
        }
    }
}

proof fn lemma_first_config_none(s: Seq<SpecCodecConfig>, id: u32)
    ensures
        first_config(s, id) is None <==> codec_config_index(s, id) is None,
        first_config(s, id) matches Some(x) ==> x.codec_config_id == id,
    decreases s.len(),
{
    if s.len() > 0 {
        lemma_first_config_none(s.drop_last(), id);
        if first_config(s.drop_last(), id) is None {
            assert forall|i: int| 0 <= i < s.len() - 1 implies s[i].codec_config_id != id by {
                assert(s.drop_last()[i] == s[i]);
            }
            if s.last().codec_config_id == id {
                assert(s[s.len() - 1].codec_config_id == id);
            }
        } else {
            let w = choose|i: int| 0 <= i < s.drop_last().len() && s.drop_last()[i].codec_config_id == id;
            assert(s[w] == s.drop_last()[w]);
        }
    }
}

proof fn lemma_first_config_push(s: Seq<SpecCodecConfig>, x: SpecCodecConfig, id: u32)
    ensures
        first_config(s.push(x), id) == (match first_config(s, id) {
            Some(y) => Some(y),
            None => if x.codec_config_id == id {
                Some(x)
            } else {
                None
            },
        }),
{
    assert(s.push(x).drop_last() =~= s);
}

/// The first SpecCodecConfig with `id` among the descriptors of the walk from `st`
/// (up to its first malformed OBU or descriptor).
pub open spec fn walk_first_config(st: IterState, id: u32) -> Option<SpecCodecConfig>
    decreases st.input.len() - st.cursor,
{
    if st.failed || st.cursor >= st.input.len() {
        None
    } else {
        match crate::obu::spec_parse_obu(st.input, st.cursor) {
            Err(_) => None,
            Ok((obu, p)) => match spec_descriptor(obu) {
                Err(_) => None,
                Ok(d) => {
                    proof {
                        lemma_parse_obu_advances(st.input, st.cursor);
                    }
                    match d {
                        Some(SpecDescriptor::CodecConfig(x)) => if x.codec_config_id == id {
                            Some(x)
                        } else {
                            walk_first_config(IterState { cursor: p, ..st }, id)
                        },
                        _ => walk_first_config(IterState { cursor: p, ..st }, id),
                    }
                },
            },
        }
    }
}

/// The first SpecAudioElement in `s` with `id`.
pub open spec fn first_element(s: Seq<SpecAudioElement>, id: u32) -> Option<SpecAudioElement>
    decreases s.len(),
{
    if s.len() == 0 {
        None
    } else {
        match first_element(s.drop_last(), id) {
            Some(x) => Some(x),
            None => if s.last().audio_element_id == id {
                Some(s.last())
            } else {
                None
            },
        }
    }
}

proof fn lemma_first_element_none(s: Seq<SpecAudioElement>, id: u32)
    ensures
        first_element(s, id) is None <==> element_index(s, id) is None,
        first_element(s, id) matches Some(x) ==> x.audio_element_id == id,
    decreases s.len(),
{
    if s.len() > 0 {
        lemma_first_element_none(s.drop_last(), id);
        if first_element(s.drop_last(), id) is None {
            assert forall|i: int| 0 <= i < s.len() - 1 implies s[i].audio_element_id != id by {
                assert(s.drop_last()[i] == s[i]);
            }
            if s.last().audio_element_id == id {
                assert(s[s.len() - 1].audio_element_id == id);
            }
        } else {
            let w = choose|i: int| 0 <= i < s.drop_last().len() && s.drop_last()[i].audio_element_id == id;
            assert(s[w] == s.drop_last()[w]);
        }
    }
}

proof fn lemma_first_element_push(s: Seq<SpecAudioElement>, x: SpecAudioElement, id: u32)
    ensures
        first_element(s.push(x), id) == (match first_element(s, id) {
            Some(y) => Some(y),
            None => if x.audio_element_id == id {
                Some(x)
            } else {
                None
            },
        }),
{
    assert(s.push(x).drop_last() =~= s);
}

/// The first SpecAudioElement with `id` among the descriptors of the walk from `st`
/// (up to its first malformed OBU or descriptor).
pub open spec fn walk_first_element(st: IterState, id: u32) -> Option<SpecAudioElement>
    decreases st.input.len() - st.cursor,
{
    if st.failed || st.cursor >= st.input.len() {
        None
    } else {
        match crate::obu::spec_parse_obu(st.input, st.cursor) {
            Err(_) => None,
            Ok((obu, p)) => match spec_descriptor(obu) {
                Err(_) => None,
                Ok(d) => {
                    proof {
                        lemma_parse_obu_advances(st.input, st.cursor);
                    }
                    match d {
                        Some(SpecDescriptor::AudioElement(x)) => if x.audio_element_id == id {
                            Some(x)
                        } else {
                            walk_first_element(IterState { cursor: p, ..st }, id)
                        },
                        _ => walk_first_element(IterState { cursor: p, ..st }, id),
                    }
                },
            },
        }
    }
}

/// The first SpecMixPresentation in `s` with `id`.
pub open spec fn first_mix(s: Seq<SpecMixPresentation>, id: u32) -> Option<SpecMixPresentation>
    decreases s.len(),
{
    if s.len() == 0 {
        None
    } else {
        match first_mix(s.drop_last(), id) {
            Some(x) => Some(x),
            None => if s.last().mix_presentation_id == id {
                Some(s.last())
            } else {
                None
            },
        }
    }
}

proof fn lemma_first_mix_none(s: Seq<SpecMixPresentation>, id: u32)
    ensures
        first_mix(s, id) is None <==> mix_index(s, id) is None,
        first_mix(s, id) matches Some(x) ==> x.mix_presentation_id == id,
    decreases s.len(),
{
    if s.len() > 0 {
        lemma_first_mix_none(s.drop_last(), id);
        if first_mix(s.drop_last(), id) is None {
            assert forall|i: int| 0 <= i < s.len() - 1 implies s[i].mix_presentation_id != id by {
                assert(s.drop_last()[i] == s[i]);
            }
            if s.last().mix_presentation_id == id {
                assert(s[s.len() - 1].mix_presentation_id == id);
            }
        } else {
            let w = choose|i: int| 0 <= i < s.drop_last().len() && s.drop_last()[i].mix_presentation_id == id;
            assert(s[w] == s.drop_last()[w]);
        }
    }
}

proof fn lemma_first_mix_push(s: Seq<SpecMixPresentation>, x: SpecMixPresentation, id: u32)
    ensures
        first_mix(s.push(x), id) == (match first_mix(s, id) {
            Some(y) => Some(y),
            None => if x.mix_presentation_id == id {
                Some(x)
            } else {
                None
            },
        }),
{
    assert(s.push(x).drop_last() =~= s);
}

/// The first SpecMixPresentation with `id` among the descriptors of the walk from `st`
/// (up to its first malformed OBU or descriptor).
pub open spec fn walk_first_mix(st: IterState, id: u32) -> Option<SpecMixPresentation>
    decreases st.input.len() - st.cursor,
{
    if st.failed || st.cursor >= st.input.len() {
        None
    } else {
        match crate::obu::spec_parse_obu(st.input, st.cursor) {
            Err(_) => None,
            Ok((obu, p)) => match spec_descriptor(obu) {
                Err(_) => None,
                Ok(d) => {
                    proof {
                        lemma_parse_obu_advances(st.input, st.cursor);
                    }
                    match d {
                        Some(SpecDescriptor::MixPresentation(x)) => if x.mix_presentation_id == id {
                            Some(x)
                        } else {
                            walk_first_mix(IterState { cursor: p, ..st }, id)
                        },
                        _ => walk_first_mix(IterState { cursor: p, ..st }, id),
                    }
                },
            },
        }
    }
}

/// The first sequence header among the descriptors of the walk from `st`.
pub open spec fn walk_first_header(st: IterState) -> Option<SequenceHeader>
    decreases st.input.len() - st.cursor,
{
    if st.failed || st.cursor >= st.input.len() {
        None
    } else {
        match crate::obu::spec_parse_obu(st.input, st.cursor) {
            Err(_) => None,
            Ok((obu, p)) => match spec_descriptor(obu) {
                Err(_) => None,
                Ok(d) => {
                    proof {
                        lemma_parse_obu_advances(st.input, st.cursor);
                    }
                    match d {
                        Some(SpecDescriptor::SequenceHeader(h)) => Some(h),
                        _ => walk_first_header(IterState { cursor: p, ..st }),
                    }
                },
            },
        }
    }
}

proof fn lemma_collect_first_from(st: IterState, acc: SpecDescriptors, id: u32)
    ensures
        spec_collect_from(st, acc) matches Ok(d) ==> {
            &&& first_config(d.codec_configs, id) == match first_config(acc.codec_configs, id) {
                Some(x) => Some(x),
                None => walk_first_config(st, id),
            }
            &&& first_element(d.audio_elements, id) == match first_element(acc.audio_elements, id) {
                Some(x) => Some(x),
                None => walk_first_element(st, id),
            }
            &&& first_mix(d.mix_presentations, id) == match first_mix(acc.mix_presentations, id) {
                Some(x) => Some(x),
                None => walk_first_mix(st, id),
            }
            &&& d.sequence_header == match acc.sequence_header {
                Some(h) => Some(h),
                None => walk_first_header(st),
            }
        },
    decreases st.input.len() - st.cursor,
{
    if !(st.failed || st.cursor >= st.input.len()) {
        lemma_parse_obu_advances(st.input, st.cursor);
        match crate::obu::spec_parse_obu(st.input, st.cursor) {
            Ok((obu, p)) => match spec_descriptor(obu) {
                Ok(dd) => {
                    let next_st = IterState { cursor: p, ..st };
                    let next = add_descriptor(acc, dd);
                    lemma_collect_first_from(next_st, next, id);
                    match dd {
                        Some(SpecDescriptor::CodecConfig(c)) => {
                            lemma_first_config_none(acc.codec_configs, c.codec_config_id);
                            lemma_first_config_none(acc.codec_configs, id);
                            lemma_first_config_push(acc.codec_configs, c, id);
                        },
                        Some(SpecDescriptor::AudioElement(e)) => {
                            lemma_first_element_none(acc.audio_elements, e.audio_element_id);
                            lemma_first_element_none(acc.audio_elements, id);
                            lemma_first_element_push(acc.audio_elements, e, id);
                        },
                        Some(SpecDescriptor::MixPresentation(m)) => {
                            lemma_first_mix_none(acc.mix_presentations, m.mix_presentation_id);
                            lemma_first_mix_none(acc.mix_presentations, id);
                            lemma_first_mix_push(acc.mix_presentations, m, id);
                        },
                        _ => {},
                    }
                },
                Err(_) => {},
            },
            Err(_) => {},
        }
    }
}

/// Redundant copies never replace a descriptor: in the collected
/// descriptors, the codec config, audio element and mix presentation kept
/// for each id is the first one with that id in the input, an id is
/// present exactly when the input holds a descriptor with it, and the
/// sequence header is the input's first (other OBUs are ignored).
pub proof fn lemma_collect_first_copy(data: Seq<u8>, id: u32)
    ensures
        spec_collect(data) matches Ok(d) ==> {
            let st = IterState { input: data, cursor: 0, failed: false };
            &&& first_config(d.codec_configs, id) == walk_first_config(st, id)
            &&& first_element(d.audio_elements, id) == walk_first_element(st, id)
            &&& first_mix(d.mix_presentations, id) == walk_first_mix(st, id)
            &&& d.sequence_header == walk_first_header(st)
        },
{
    let st = IterState { input: data, cursor: 0, failed: false };
    lemma_collect_first_from(st, empty_descriptors(), id);
}

/// `acc`'s descriptors stand, in their order, at the start of `d`'s.
pub open spec fn extends_in_order(acc: SpecDescriptors, d: SpecDescriptors) -> bool {
    &&& acc.codec_configs.len() <= d.codec_configs.len()
    &&& d.codec_configs.subrange(0, acc.codec_configs.len() as int) == acc.codec_configs
    &&& acc.audio_elements.len() <= d.audio_elements.len()
    &&& d.audio_elements.subrange(0, acc.audio_elements.len() as int) == acc.audio_elements
    &&& acc.mix_presentations.len() <= d.mix_presentations.len()
    &&& d.mix_presentations.subrange(0, acc.mix_presentations.len() as int) == acc.mix_presentations
    &&& (acc.sequence_header is Some ==> d.sequence_header == acc.sequence_header)
}

/// Collecting only appends: descriptors already recorded keep their place
/// and order, and each new one goes after them, so the collected
/// descriptors of each kind stand in the order of their first appearance.
pub proof fn lemma_collect_keeps_order(st: IterState, acc: SpecDescriptors)
    ensures
        spec_collect_from(st, acc) matches Ok(d) ==> extends_in_order(acc, d),
    decreases st.input.len() - st.cursor,
{
    if !(st.failed || st.cursor >= st.input.len()) {
        lemma_parse_obu_advances(st.input, st.cursor);
        match crate::obu::spec_parse_obu(st.input, st.cursor) {
            Ok((obu, p)) => match spec_descriptor(obu) {
                Ok(d) => {
                    let next = add_descriptor(acc, d);
                    assert(extends_in_order(acc, next)) by {
                        assert(next.codec_configs.subrange(0, acc.codec_configs.len() as int) =~= acc.codec_configs);
                        assert(next.audio_elements.subrange(0, acc.audio_elements.len() as int) =~= acc.audio_elements);
                        assert(next.mix_presentations.subrange(0, acc.mix_presentations.len() as int)
                            =~= acc.mix_presentations);
                    }
                    lemma_collect_keeps_order(IterState { cursor: p, ..st }, next);
                    if let Ok(r) = spec_collect_from(IterState { cursor: p, ..st }, next) {
                        assert(r.codec_configs.subrange(0, acc.codec_configs.len() as int) =~= next.codec_configs.subrange(
                            0,
                            acc.codec_configs.len() as int,
                        ));
                        assert(r.audio_elements.subrange(0, acc.audio_elements.len() as int)
                            =~= next.audio_elements.subrange(0, acc.audio_elements.len() as int));
                        assert(r.mix_presentations.subrange(0, acc.mix_presentations.len() as int)
                            =~= next.mix_presentations.subrange(0, acc.mix_presentations.len() as int));
                    }
                },
                Err(_) => {},
            },
            Err(_) => {},
        }
    } else {
        assert(acc.codec_configs.subrange(0, acc.codec_configs.len() as int) =~= acc.codec_configs);
        assert(acc.audio_elements.subrange(0, acc.audio_elements.len() as int) =~= acc.audio_elements);
        assert(acc.mix_presentations.subrange(0, acc.mix_presentations.len() as int) =~= acc.mix_presentations);
    }
}

/// Per temporal unit: `(samples per channel, samples trimmed at the start,
/// samples trimmed at the end)`.
pub open spec fn spec_trim_entry(len: nat, channels: nat, trim_start: u32, trim_end: u32) -> (usize, usize, usize) {
    let count = len / (if channels == 0 {
        1
    } else {
        channels
    });
    let start = if trim_start < count {
        trim_start as nat
    } else {
        count
    };
    let rest = (count - start) as nat;
    let end = if trim_end < rest {
        trim_end as nat
    } else {
        rest
    };
    (count as usize, start as usize, end as usize)
}

/// The trim map of a substream's frames: per frame, its length in samples
/// per channel and its start/end trims, each clamped so that the trims
/// never exceed the frame.
pub fn trim_map_of<S>(frames: &[FramePcm<S>], channels: usize) -> (map: Vec<(usize, usize, usize)>)
    ensures
        map@.len() == frames@.len(),
        forall|k: int|
            0 <= k < frames@.len() ==> #[trigger] map@[k] == spec_trim_entry(
                frames@[k].samples@.len(),
                channels as nat,
                frames@[k].trim_start,
                frames@[k].trim_end,
            ),
{
    let mut map: Vec<(usize, usize, usize)> = Vec::new();
    let mut k: usize = 0;
    let divisor = if channels == 0 {
        1
    } else {
        channels
    };
    while k < frames.len()
        invariant
            k <= frames@.len(),
            divisor == (if channels == 0 {
                1
            } else {
                channels
            }),
            map@.len() == k,
            forall|j: int|
                0 <= j < k ==> #[trigger] map@[j] == spec_trim_entry(
                    frames@[j].samples@.len(),
                    channels as nat,
                    frames@[j].trim_start,
                    frames@[j].trim_end,
                ),
        decreases frames.len() - k,
    {
        let f = &frames[k];
        let count = f.samples.len() / divisor;
        let start = if (f.trim_start as usize) < count {
            f.trim_start as usize
        } else {
            count
        };
        let end = if (f.trim_end as usize) < count - start {
            f.trim_end as usize
        } else {
            count - start
        };
        map.push((count, start, end));
        k = k + 1;
    }
    map
}

/// Samples per channel of the first `k` temporal units.
pub open spec fn trim_offset(map: Seq<(usize, usize, usize)>, k: nat) -> nat
    decreases k,
{
    if k == 0 || k > map.len() {
        0
    } else {
        trim_offset(map, (k - 1) as nat) + map[k - 1].0 as nat
    }
}

/// The kept span of temporal unit `k` within a plane: from its start trim
/// to its end trim, clamped to the plane.
pub open spec fn kept_span(plane_len: nat, map: Seq<(usize, usize, usize)>, k: nat) -> (int, int) {
    let off = trim_offset(map, k);
    let (len, start, end) = map[k as int];
    let upper = if off + len - end < plane_len {
        off + len - end
    } else {
        plane_len as int
    };
    let lower = if off + start < upper {
        off + start
    } else {
        upper
    };
    (lower, upper)
}

/// A plane with the trimmed spans of its first `k` temporal units cut out.
pub open spec fn trimmed_plane<S>(plane: Seq<S>, map: Seq<(usize, usize, usize)>, k: nat) -> Seq<S>
    decreases k,
{
    if k == 0 {
        Seq::empty()
    } else {
        let (lower, upper) = kept_span(plane.len(), map, (k - 1) as nat);
        trimmed_plane(plane, map, (k - 1) as nat) + plane.subrange(lower, upper)
    }
}

/// The map's units fit in `usize`, no start trim reaches past `usize`, and
/// no end trim reaches before the start of the timeline.
pub open spec fn trim_map_fits(map: Seq<(usize, usize, usize)>) -> bool {
    &&& trim_offset(map, map.len()) <= usize::MAX
    &&& forall|k: int|
        0 <= k < map.len() ==> #[trigger] map[k].2 <= trim_offset(map, k as nat) + map[k].0 && trim_offset(map, k as nat)
            + map[k].1 <= usize::MAX
}

proof fn lemma_trim_offset_monotone(map: Seq<(usize, usize, usize)>, j: nat, k: nat)
    requires
        j <= k <= map.len(),
    ensures
        trim_offset(map, j) <= trim_offset(map, k),
    decreases k,
{
    if j < k {
        lemma_trim_offset_monotone(map, j, (k - 1) as nat);
    }
}

fn trim_plane<S: Copy>(plane: &Vec<S>, map: &[(usize, usize, usize)]) -> (out: Vec<S>)
    requires
        trim_map_fits(map@),
    ensures
        out@ == trimmed_plane(plane@, map@, map@.len()),
{
    let mut out: Vec<S> = Vec::new();
    let mut off: usize = 0;
    let mut k: usize = 0;
    while k < map.len()
        invariant
            k <= map@.len(),
            trim_map_fits(map@),
            off == trim_offset(map@, k as nat),
            out@ == trimmed_plane(plane@, map@, k as nat),
        decreases map.len() - k,
    {
        proof {
            lemma_trim_offset_monotone(map@, (k + 1) as nat, map@.len());
        }
        let (len, start, end) = map[k];
        assert(end <= off + len);
        let upper = if off + len - end < plane.len() {
            off + len - end
        } else {
            plane.len()
        };
        let lower = if off + start < upper {
            off + start
        } else {
            upper
        };
        let ghost before = out@;
        let mut t = lower;
        while t < upper
            invariant
                lower <= t <= upper <= plane@.len(),
                out@ == before + plane@.subrange(lower as int, t as int),
            decreases upper - t,
        {
            out.push(plane[t]);
            assert(before + plane@.subrange(lower as int, t + 1) =~= (before + plane@.subrange(lower as int, t as int)).push(plane@[t as int]));
            t = t + 1;
        }
        off = off + len;
        k = k + 1;
    }
    out
}

/// Cuts trim spans out of planes, per temporal unit.
pub fn apply_trim_map<S: Copy>(planes: Vec<Vec<S>>, trim_map: &[(usize, usize, usize)]) -> (out: Vec<Vec<S>>)
    requires
        trim_map_fits(trim_map@),
    ensures
        out@.len() == planes@.len(),
        forall|i: int|
            0 <= i < planes@.len() ==> #[trigger] out@[i]@ == trimmed_plane(planes@[i]@, trim_map@, trim_map@.len()),
{
    let mut out: Vec<Vec<S>> = Vec::new();
    let mut i: usize = 0;
    while i < planes.len()
        invariant
            i <= planes@.len(),
            trim_map_fits(trim_map@),
            out@.len() == i,
            forall|j: int| 0 <= j < i ==> #[trigger] out@[j]@ == trimmed_plane(planes@[j]@, trim_map@, trim_map@.len()),
        decreases planes.len() - i,
    {
        out.push(trim_plane(&planes[i], trim_map));
        i = i + 1;
    }
    out
}

/// The samples of one decoded frame (interleaved, `channels` wide, at
/// least one) that survive its trims: whole sample frames from the start
/// trim to the end trim, clamped as in [`spec_trim_entry`].
pub open spec fn spec_kept_samples<S>(samples: Seq<S>, channels: nat, trim_start: u32, trim_end: u32) -> Seq<S> {
    let (count, start, end) = spec_trim_entry(samples.len(), channels, trim_start, trim_end);
    let ch = if channels == 0 {
        1
    } else {
        channels
    };
    samples.subrange(start * ch, (count - end) * ch)
}

/// The samples of a decoded frame kept after its trims.
pub fn kept_samples<S: Copy>(samples: &[S], channels: u8, trim_start: u32, trim_end: u32) -> (kept: Vec<S>)
    ensures
        kept@ == spec_kept_samples(samples@, channels as nat, trim_start, trim_end),
{
    let ch: usize = if channels == 0 {
        1
    } else {
        channels as usize
    };
    let len = samples.len();
    let frame_count = len / ch;
    let start = if (trim_start as usize) < frame_count {
        trim_start as usize
    } else {
        frame_count
    };
    let end = if (trim_end as usize) < frame_count - start {
        trim_end as usize
    } else {
        frame_count - start
    };
    assert((frame_count - end) * ch <= len && start * ch <= (frame_count - end) * ch) by (nonlinear_arith)
        requires
            frame_count == len / ch,
            ch > 0,
            start + end <= frame_count,
    ;
    let lo = start * ch;
    let hi = (frame_count - end) * ch;
    let mut kept: Vec<S> = Vec::new();
    let mut i = lo;
    while i < hi
        invariant
            lo <= i <= hi <= samples@.len(),
            kept@ == samples@.subrange(lo as int, i as int),
        decreases hi - i,
    {
        kept.push(samples[i]);
        assert(kept@ =~= samples@.subrange(lo as int, i + 1));
        i = i + 1;
    }
    kept
}

} // verus!
