//! Named channels for scalable channel audio: the channels each layer of
//! a scalable element brings, and the channels output gains and recon
//! gains apply to.

use vstd::prelude::*;

verus! {

use Channel::{Mono, L2, R2, L3, R3, Tl, Tr, L5, R5, Sl5, Sr5, Hl, Hr, L7, R7, Sl7, Sr7, Bl7, Br7, Hfl, Hfr, Hbl, Hbr, C, Lfe};

/// A concrete channel of some loudspeaker layout. `L2`/`L3`/`L5`/`L7` are
/// the front-left channel as mixed for stereo/3.x/5.x/7.x layouts (they
/// carry different content in a scalable stream).
#[derive(Debug, Clone, Copy, PartialEq, Eq, PartialOrd, Ord, Structural)]
pub enum Channel {
    Mono,
    L2,
    R2,
    L3,
    R3,
    // Top pair of 3.1.2.
    Tl,
    Tr,
    L5,
    R5,
    Sl5,
    Sr5,
    // Height pair of x.y.2.
    Hl,
    Hr,
    L7,
    R7,
    Sl7,
    Sr7,
    Bl7,
    Br7,
    // Height quad of x.y.4.
    Hfl,
    Hfr,
    Hbl,
    Hbr,
    C,
    Lfe,
}

pub const CHANNEL_COUNT: usize = 25;

/// Position of a channel in declaration order.
pub open spec fn channel_index(c: Channel) -> nat {
    match c {
        Channel::Mono => 0,
        Channel::L2 => 1,
        Channel::R2 => 2,
        Channel::L3 => 3,
        Channel::R3 => 4,
        Channel::Tl => 5,
        Channel::Tr => 6,
        Channel::L5 => 7,
        Channel::R5 => 8,
        Channel::Sl5 => 9,
        Channel::Sr5 => 10,
        Channel::Hl => 11,
        Channel::Hr => 12,
        Channel::L7 => 13,
        Channel::R7 => 14,
        Channel::Sl7 => 15,
        Channel::Sr7 => 16,
        Channel::Bl7 => 17,
        Channel::Br7 => 18,
        Channel::Hfl => 19,
        Channel::Hfr => 20,
        Channel::Hbl => 21,
        Channel::Hbr => 22,
        Channel::C => 23,
        Channel::Lfe => 24,
    }
}

impl Channel {
    pub fn index(self) -> (i: usize)
        ensures
            i == channel_index(self),
            i < CHANNEL_COUNT,
    {
        match self {
            Channel::Mono => 0,
            Channel::L2 => 1,
            Channel::R2 => 2,
            Channel::L3 => 3,
            Channel::R3 => 4,
            Channel::Tl => 5,
            Channel::Tr => 6,
            Channel::L5 => 7,
            Channel::R5 => 8,
            Channel::Sl5 => 9,
            Channel::Sr5 => 10,
            Channel::Hl => 11,
            Channel::Hr => 12,
            Channel::L7 => 13,
            Channel::R7 => 14,
            Channel::Sl7 => 15,
            Channel::Sr7 => 16,
            Channel::Bl7 => 17,
            Channel::Br7 => 18,
            Channel::Hfl => 19,
            Channel::Hfr => 20,
            Channel::Hbl => 21,
            Channel::Hbr => 22,
            Channel::C => 23,
            Channel::Lfe => 24,
        }
    }
}

/// Distinct channels have distinct indices.
pub proof fn lemma_index_injective(a: Channel, b: Channel)
    ensures
        channel_index(a) == channel_index(b) <==> a == b,
{
}

/// Rendering-order channels (channel_layout) per loudspeaker_layout 0..=8.
pub open spec fn spec_rendering_channels(layout: u8) -> Option<Seq<Channel>> {
    if layout == 0 {
        Some(seq![Channel::Mono])
    } else if layout == 1 {
        Some(seq![Channel::L2, Channel::R2])
    } else if layout == 2 {
        Some(seq![Channel::L5, Channel::R5, Channel::C, Channel::Lfe, Channel::Sl5, Channel::Sr5])
    } else if layout == 3 {
        Some(seq![Channel::L5, Channel::R5, Channel::C, Channel::Lfe, Channel::Sl5, Channel::Sr5, Channel::Hl, Channel::Hr])
    } else if layout == 4 {
        Some(
            seq![Channel::L5, Channel::R5, Channel::C, Channel::Lfe, Channel::Sl5, Channel::Sr5, Channel::Hfl, Channel::Hfr, Channel::Hbl, Channel::Hbr],
        )
    } else if layout == 5 {
        Some(seq![Channel::L7, Channel::R7, Channel::C, Channel::Lfe, Channel::Sl7, Channel::Sr7, Channel::Bl7, Channel::Br7])
    } else if layout == 6 {
        Some(
            seq![Channel::L7, Channel::R7, Channel::C, Channel::Lfe, Channel::Sl7, Channel::Sr7, Channel::Bl7, Channel::Br7, Channel::Hl, Channel::Hr],
        )
    } else if layout == 7 {
        Some(
            seq![Channel::L7, Channel::R7, Channel::C, Channel::Lfe, Channel::Sl7, Channel::Sr7, Channel::Bl7, Channel::Br7, Channel::Hfl, Channel::Hfr, Channel::Hbl, Channel::Hbr],
        )
    } else if layout == 8 {
        Some(seq![Channel::L3, Channel::R3, Channel::C, Channel::Lfe, Channel::Tl, Channel::Tr])
    } else {
        None
    }
}

/// Substream-decode-order channels of a layout when it is the first layer
/// (coupled pairs first, then C, then LFE).
pub open spec fn spec_decoding_channels(layout: u8) -> Option<Seq<Channel>> {
    if layout == 0 {
        Some(seq![Channel::Mono])
    } else if layout == 1 {
        Some(seq![Channel::L2, Channel::R2])
    } else if layout == 2 {
        Some(seq![Channel::L5, Channel::R5, Channel::Sl5, Channel::Sr5, Channel::C, Channel::Lfe])
    } else if layout == 3 {
        Some(seq![Channel::L5, Channel::R5, Channel::Sl5, Channel::Sr5, Channel::Hl, Channel::Hr, Channel::C, Channel::Lfe])
    } else if layout == 4 {
        Some(
            seq![Channel::L5, Channel::R5, Channel::Sl5, Channel::Sr5, Channel::Hfl, Channel::Hfr, Channel::Hbl, Channel::Hbr, Channel::C, Channel::Lfe],
        )
    } else if layout == 5 {
        Some(seq![Channel::L7, Channel::R7, Channel::Sl7, Channel::Sr7, Channel::Bl7, Channel::Br7, Channel::C, Channel::Lfe])
    } else if layout == 6 {
        Some(
            seq![Channel::L7, Channel::R7, Channel::Sl7, Channel::Sr7, Channel::Bl7, Channel::Br7, Channel::Hl, Channel::Hr, Channel::C, Channel::Lfe],
        )
    } else if layout == 7 {
        Some(
            seq![Channel::L7, Channel::R7, Channel::Sl7, Channel::Sr7, Channel::Bl7, Channel::Br7, Channel::Hfl, Channel::Hfr, Channel::Hbl, Channel::Hbr, Channel::C, Channel::Lfe],
        )
    } else if layout == 8 {
        Some(seq![Channel::L3, Channel::R3, Channel::Tl, Channel::Tr, Channel::C, Channel::Lfe])
    } else {
        None
    }
}

/// How often `c` occurs in `s`.
pub open spec fn occurrences(s: Seq<Channel>, c: Channel) -> nat
    decreases s.len(),
{
    if s.len() == 0 {
        0
    } else {
        occurrences(s.drop_last(), c) + if s.last() == c {
            1nat
        } else {
            0nat
        }
    }
}

/// Both orders of `layout` hold the channel at most once, and equally
/// often.
pub open spec fn orders_agree_on(layout: u8, c: Channel) -> bool {
    let r = spec_rendering_channels(layout)->Some_0;
    let d = spec_decoding_channels(layout)->Some_0;
    occurrences(r, c) == occurrences(d, c) && occurrences(r, c) <= 1
}

#[verifier::rlimit(60)]
proof fn lemma_orders_agree_0(c: Channel)
    ensures
        orders_agree_on(0, c),
{
    reveal_with_fuel(occurrences, 13);
}

#[verifier::rlimit(60)]
proof fn lemma_orders_agree_1(c: Channel)
    ensures
        orders_agree_on(1, c),
{
    reveal_with_fuel(occurrences, 13);
}

#[verifier::rlimit(60)]
proof fn lemma_orders_agree_2(c: Channel)
    ensures
        orders_agree_on(2, c),
{
    reveal_with_fuel(occurrences, 13);
}

#[verifier::rlimit(60)]
proof fn lemma_orders_agree_3(c: Channel)
    ensures
        orders_agree_on(3, c),
{
    reveal_with_fuel(occurrences, 13);
}

#[verifier::rlimit(60)]
proof fn lemma_orders_agree_4(c: Channel)
    ensures
        orders_agree_on(4, c),
{
    reveal_with_fuel(occurrences, 13);
}

#[verifier::rlimit(60)]
proof fn lemma_orders_agree_5(c: Channel)
    ensures
        orders_agree_on(5, c),
{
    reveal_with_fuel(occurrences, 13);
}

#[verifier::rlimit(60)]
proof fn lemma_orders_agree_6(c: Channel)
    ensures
        orders_agree_on(6, c),
{
    reveal_with_fuel(occurrences, 13);
}

#[verifier::rlimit(60)]
proof fn lemma_orders_agree_7(c: Channel)
    ensures
        orders_agree_on(7, c),
{
    reveal_with_fuel(occurrences, 13);
}

#[verifier::rlimit(60)]
proof fn lemma_orders_agree_8(c: Channel)
    ensures
        orders_agree_on(8, c),
{
    reveal_with_fuel(occurrences, 13);
}

/// The channel tables: loudspeaker layouts 0..=8 have both a rendering
/// and a decoding order, of 1, 2, 6, 8, 10, 8, 10, 12 and 6 channels; each
/// order holds a channel at most once and the two hold the same channels
/// (one is a permutation of the other); other layouts have neither.
pub proof fn lemma_channel_tables(layout: u8, c: Channel)
    ensures
        layout <= 8 ==> {
            &&& spec_rendering_channels(layout) is Some
            &&& spec_decoding_channels(layout) is Some
            &&& spec_rendering_channels(layout)->Some_0.len() == seq![1nat, 2, 6, 8, 10, 8, 10, 12, 6][layout as int]
            &&& spec_decoding_channels(layout)->Some_0.len() == spec_rendering_channels(layout)->Some_0.len()
            &&& orders_agree_on(layout, c)
        },
        layout > 8 ==> spec_rendering_channels(layout) is None && spec_decoding_channels(layout) is None,
{
    if layout <= 8 {
        match layout {
            0 => lemma_orders_agree_0(c),
            1 => lemma_orders_agree_1(c),
            2 => lemma_orders_agree_2(c),
            3 => lemma_orders_agree_3(c),
            4 => lemma_orders_agree_4(c),
            5 => lemma_orders_agree_5(c),
            6 => lemma_orders_agree_6(c),
            7 => lemma_orders_agree_7(c),
            _ => lemma_orders_agree_8(c),
        }
    }
}

/// Rendering-order channels (channel_layout) per loudspeaker_layout 0..=8.
pub fn rendering_channels(loudspeaker_layout: u8) -> (res: Option<&'static [Channel]>)
    ensures
        match (res, spec_rendering_channels(loudspeaker_layout)) {
            (Some(v), Some(s)) => v@ == s,
            (None, None) => true,
            _ => false,
        },
{
    let v: &'static [Channel] = match loudspeaker_layout {
        0 => &[Mono],
        1 => &[L2, R2],
        2 => &[L5, R5, C, Lfe, Sl5, Sr5],
        3 => &[L5, R5, C, Lfe, Sl5, Sr5, Hl, Hr],
        4 => &[L5, R5, C, Lfe, Sl5, Sr5, Hfl, Hfr, Hbl, Hbr],
        5 => &[L7, R7, C, Lfe, Sl7, Sr7, Bl7, Br7],
        6 => &[L7, R7, C, Lfe, Sl7, Sr7, Bl7, Br7, Hl, Hr],
        7 => &[L7, R7, C, Lfe, Sl7, Sr7, Bl7, Br7, Hfl, Hfr, Hbl, Hbr],
        8 => &[L3, R3, C, Lfe, Tl, Tr],
        _ => return None,
    };
    assert(v@ =~= spec_rendering_channels(loudspeaker_layout)->0);
    Some(v)
}

/// Substream-decode-order channels of a layout when it is the first layer
/// (coupled pairs first, then C, then LFE) — `channel_layout[decoding_map]`.
pub fn decoding_channels(loudspeaker_layout: u8) -> (res: Option<&'static [Channel]>)
    ensures
        match (res, spec_decoding_channels(loudspeaker_layout)) {
            (Some(v), Some(s)) => v@ == s,
            (None, None) => true,
            _ => false,
        },
{
    let v: &'static [Channel] = match loudspeaker_layout {
        0 => &[Mono],
        1 => &[L2, R2],
        2 => &[L5, R5, Sl5, Sr5, C, Lfe],
        3 => &[L5, R5, Sl5, Sr5, Hl, Hr, C, Lfe],
        4 => &[L5, R5, Sl5, Sr5, Hfl, Hfr, Hbl, Hbr, C, Lfe],
        5 => &[L7, R7, Sl7, Sr7, Bl7, Br7, C, Lfe],
        6 => &[L7, R7, Sl7, Sr7, Bl7, Br7, Hl, Hr, C, Lfe],
        7 => &[L7, R7, Sl7, Sr7, Bl7, Br7, Hfl, Hfr, Hbl, Hbr, C, Lfe],
        8 => &[L3, R3, Tl, Tr, C, Lfe],
        _ => return None,
    };
    assert(v@ =~= spec_decoding_channels(loudspeaker_layout)->0);
    Some(v)
}

/// (surround, height) counts per loudspeaker_layout.
pub open spec fn spec_surround_height(layout: u8) -> (u8, u8) {
    if layout == 0 {
        (1, 0)
    } else if layout == 1 {
        (2, 0)
    } else if layout == 2 {
        (5, 0)
    } else if layout == 3 {
        (5, 2)
    } else if layout == 4 {
        (5, 4)
    } else if layout == 5 {
        (7, 0)
    } else if layout == 6 {
        (7, 2)
    } else if layout == 7 {
        (7, 4)
    } else if layout == 8 {
        (3, 2)
    } else {
        (0, 0)
    }
}

fn surround_height(loudspeaker_layout: u8) -> (r: (u8, u8))
    ensures
        r == spec_surround_height(loudspeaker_layout),
{
    match loudspeaker_layout {
        0 => (1, 0),
        1 => (2, 0),
        2 => (5, 0),
        3 => (5, 2),
        4 => (5, 4),
        5 => (7, 0),
        6 => (7, 2),
        7 => (7, 4),
        8 => (3, 2),
        _ => (0, 0),
    }
}

/// Channels a layer adds on top of the previous layer, in substream decode
/// order: the first layer
/// brings all its decoding-order channels; later layers add L5/R5 when
/// reaching 5 surround channels, Sl7/Sr7 when reaching 7, the front height
/// pair when reaching 4 heights, the back height pair when the heights grow
/// by 4 or else a top/height pair when going from 0 to 2 heights, C/LFE when
/// reaching 3 surround channels, and L2 when reaching 2.
pub open spec fn spec_new_channels(last: Option<u8>, cur: u8) -> Seq<Channel> {
    match last {
        None => match spec_decoding_channels(cur) {
            Some(s) => s,
            None => Seq::empty(),
        },
        Some(last) => {
            let (s1, t1) = spec_surround_height(last);
            let (s2, t2) = spec_surround_height(cur);
            (if s1 < 5 && 5 <= s2 {
                seq![L5, R5]
            } else {
                Seq::empty()
            }) + (if s1 < 7 && 7 <= s2 {
                seq![Sl7, Sr7]
            } else {
                Seq::empty()
            }) + (if t2 != t1 && t2 == 4 {
                seq![Hfl, Hfr]
            } else {
                Seq::empty()
            }) + (if t2 == t1 + 4 {
                seq![Hbl, Hbr]
            } else if t1 == 0 && t2 == 2 {
                if s2 < 5 {
                    seq![Tl, Tr]
                } else {
                    seq![Hl, Hr]
                }
            } else {
                Seq::empty()
            }) + (if s1 < 3 && 3 <= s2 {
                seq![C, Lfe]
            } else {
                Seq::empty()
            }) + (if s1 < 2 && 2 <= s2 {
                seq![L2]
            } else {
                Seq::empty()
            })
        },
    }
}

/// Channels a layer adds on top of the previous layer, in substream decode
/// order.
pub fn new_channels(last: Option<u8>, cur: u8) -> (chs: Vec<Channel>)
    ensures
        chs@ == spec_new_channels(last, cur),
{
    let last = match last {
        None => {
            return match decoding_channels(cur) {
                Some(c) => {
                    let v = vstd::slice::slice_to_vec(c);
                    v
                },
                None => Vec::new(),
            };
        },
        Some(last) => last,
    };
    let (s1, t1) = surround_height(last);
    let (s2, t2) = surround_height(cur);
    let mut chs: Vec<Channel> = Vec::new();
    let ghost mut expect: Seq<Channel> = Seq::empty();
    if s1 < 5 && 5 <= s2 {
        chs.push(L5);
        chs.push(R5);
    }
    proof {
        expect = if s1 < 5 && 5 <= s2 { seq![L5, R5] } else { Seq::empty() };
    }
    assert(chs@ =~= expect);
    if s1 < 7 && 7 <= s2 {
        chs.push(Sl7);
        chs.push(Sr7);
    }
    proof {
        expect = expect + if s1 < 7 && 7 <= s2 { seq![Sl7, Sr7] } else { Seq::empty() };
    }
    assert(chs@ =~= expect);
    if t2 != t1 && t2 == 4 {
        chs.push(Hfl);
        chs.push(Hfr);
    }
    proof {
        expect = expect + if t2 != t1 && t2 == 4 { seq![Hfl, Hfr] } else { Seq::empty() };
    }
    assert(chs@ =~= expect);
    // T2 - t1 == 4, without wrapping below zero.
    if t2 >= t1 && t2 - t1 == 4 {
        chs.push(Hbl);
        chs.push(Hbr);
    } else if t1 == 0 && t2 == 2 {
        if s2 < 5 {
            chs.push(Tl);
            chs.push(Tr);
        } else {
            chs.push(Hl);
            chs.push(Hr);
        }
    }
    proof {
        expect = expect + if t2 == t1 + 4 {
            seq![Hbl, Hbr]
        } else if t1 == 0 && t2 == 2 {
            if s2 < 5 { seq![Tl, Tr] } else { seq![Hl, Hr] }
        } else {
            Seq::empty()
        };
    }
    assert(chs@ =~= expect);
    if s1 < 3 && 3 <= s2 {
        chs.push(C);
        chs.push(Lfe);
    }
    proof {
        expect = expect + if s1 < 3 && 3 <= s2 { seq![C, Lfe] } else { Seq::empty() };
    }
    assert(chs@ =~= expect);
    if s1 < 2 && 2 <= s2 {
        chs.push(L2);
    }
    proof {
        expect = expect + if s1 < 2 && 2 <= s2 { seq![L2] } else { Seq::empty() };
    }
    assert(chs@ =~= expect);
    chs
}

/// output_gain_flags bit positions: bit 5 = L, ..., bit 0 = Rtf,
/// mapped to the concrete channel of the layout it scales.
pub open spec fn spec_output_gain_channel(layout: u8, bit: u8) -> Option<Channel> {
    let surround = spec_surround_height(layout).0;
    if bit == 5 {
        if layout == 0 {
            Some(Mono)
        } else if layout == 1 {
            Some(L2)
        } else if layout == 8 {
            Some(L3)
        } else {
            None
        }
    } else if bit == 4 {
        if layout == 1 {
            Some(R2)
        } else if layout == 8 {
            Some(R3)
        } else {
            None
        }
    } else if bit == 3 && surround == 5 {
        Some(Sl5)
    } else if bit == 2 && surround == 5 {
        Some(Sr5)
    } else if bit == 1 {
        Some(if surround < 5 { Tl } else { Hl })
    } else if bit == 0 {
        Some(if surround < 5 { Tr } else { Hr })
    } else {
        None
    }
}

/// Maps an output_gain flag bit to the concrete channel of `layout` it
/// scales.
pub fn output_gain_channel(loudspeaker_layout: u8, bit: u8) -> (ch: Option<Channel>)
    ensures
        ch == spec_output_gain_channel(loudspeaker_layout, bit),
{
    let (surround, _) = surround_height(loudspeaker_layout);
    match bit {
        5 => match loudspeaker_layout {
            0 => Some(Mono),
            1 => Some(L2),
            8 => Some(L3),
            _ => None,
        },
        4 => match loudspeaker_layout {
            1 => Some(R2),
            8 => Some(R3),
            _ => None,
        },
        3 if surround == 5 => Some(Sl5),
        2 if surround == 5 => Some(Sr5),
        1 => Some(if surround < 5 { Tl } else { Hl }),
        0 => Some(if surround < 5 { Tr } else { Hr }),
        _ => None,
    }
}

/// Recon-gain flag bit positions: L, C, R, Ls, Rs, Ltf, Rtf,
/// Lb(Lrs), Rb(Rrs), Ltb(Ltr), Rtb(Rtr), LFE.
pub const RECON_CHANNEL_COUNT: usize = 12;

/// Concrete channel of `layout` for each recon-gain flag bit; `None` where the layout has no such channel or
/// the layout/bit is out of range.
pub open spec fn spec_recon_channel(layout: u8, bit: u8) -> Option<Channel> {
    let row: Seq<Option<Channel>> = if layout == 0 {
        seq![Some(Mono), None, None, None, None, None, None, None, None, None, None, None]
    } else if layout == 1 {
        seq![Some(L2), None, Some(R2), None, None, None, None, None, None, None, None, None]
    } else if layout == 2 {
        seq![Some(L5), Some(C), Some(R5), Some(Sl5), Some(Sr5), None, None, None, None, None, None, Some(Lfe)]
    } else if layout == 3 {
        seq![Some(L5), Some(C), Some(R5), Some(Sl5), Some(Sr5), Some(Hl), Some(Hr), None, None, None, None, Some(Lfe)]
    } else if layout == 4 {
        seq![Some(L5), Some(C), Some(R5), Some(Sl5), Some(Sr5), Some(Hfl), Some(Hfr), None, None, Some(Hbl), Some(Hbr), Some(Lfe)]
    } else if layout == 5 {
        seq![Some(L7), Some(C), Some(R7), Some(Sl7), Some(Sr7), None, None, Some(Bl7), Some(Br7), None, None, Some(Lfe)]
    } else if layout == 6 {
        seq![Some(L7), Some(C), Some(R7), Some(Sl7), Some(Sr7), Some(Hl), Some(Hr), Some(Bl7), Some(Br7), None, None, Some(Lfe)]
    } else if layout == 7 {
        seq![Some(L7), Some(C), Some(R7), Some(Sl7), Some(Sr7), Some(Hfl), Some(Hfr), Some(Bl7), Some(Br7), Some(Hbl), Some(Hbr), Some(Lfe)]
    } else if layout == 8 {
        seq![Some(L3), Some(C), Some(R3), None, None, Some(Tl), Some(Tr), None, None, None, None, Some(Lfe)]
    } else {
        Seq::empty()
    };
    if layout <= 8 && (bit as int) < RECON_CHANNEL_COUNT {
        row[bit as int]
    } else {
        None
    }
}

/// Concrete channel of `layout` for each recon-gain flag bit
///. `None` where the layout has no such
/// channel.
pub fn recon_channel(loudspeaker_layout: u8, bit: u8) -> (ch: Option<Channel>)
    ensures
        ch == spec_recon_channel(loudspeaker_layout, bit),
{
    if loudspeaker_layout > 8 || bit as usize >= RECON_CHANNEL_COUNT {
        return None;
    }
    let row: [Option<Channel>; RECON_CHANNEL_COUNT] = match loudspeaker_layout {
        0 => [Some(Mono), None, None, None, None, None, None, None, None, None, None, None],
        1 => [Some(L2), None, Some(R2), None, None, None, None, None, None, None, None, None],
        2 => [Some(L5), Some(C), Some(R5), Some(Sl5), Some(Sr5), None, None, None, None, None, None, Some(Lfe)],
        3 => [Some(L5), Some(C), Some(R5), Some(Sl5), Some(Sr5), Some(Hl), Some(Hr), None, None, None, None, Some(Lfe)],
        4 => [Some(L5), Some(C), Some(R5), Some(Sl5), Some(Sr5), Some(Hfl), Some(Hfr), None, None, Some(Hbl), Some(Hbr), Some(Lfe)],
        5 => [Some(L7), Some(C), Some(R7), Some(Sl7), Some(Sr7), None, None, Some(Bl7), Some(Br7), None, None, Some(Lfe)],
        6 => [Some(L7), Some(C), Some(R7), Some(Sl7), Some(Sr7), Some(Hl), Some(Hr), Some(Bl7), Some(Br7), None, None, Some(Lfe)],
        7 => [Some(L7), Some(C), Some(R7), Some(Sl7), Some(Sr7), Some(Hfl), Some(Hfr), Some(Bl7), Some(Br7), Some(Hbl), Some(Hbr), Some(Lfe)],
        _ => [Some(L3), Some(C), Some(R3), None, None, Some(Tl), Some(Tr), None, None, None, None, Some(Lfe)],
    };
    assert(row@ =~= (if loudspeaker_layout == 0 {
        seq![Some(Mono), None, None, None, None, None, None, None, None, None, None, None]
    } else if loudspeaker_layout == 1 {
        seq![Some(L2), None, Some(R2), None, None, None, None, None, None, None, None, None]
    } else if loudspeaker_layout == 2 {
        seq![Some(L5), Some(C), Some(R5), Some(Sl5), Some(Sr5), None, None, None, None, None, None, Some(Lfe)]
    } else if loudspeaker_layout == 3 {
        seq![Some(L5), Some(C), Some(R5), Some(Sl5), Some(Sr5), Some(Hl), Some(Hr), None, None, None, None, Some(Lfe)]
    } else if loudspeaker_layout == 4 {
        seq![Some(L5), Some(C), Some(R5), Some(Sl5), Some(Sr5), Some(Hfl), Some(Hfr), None, None, Some(Hbl), Some(Hbr), Some(Lfe)]
    } else if loudspeaker_layout == 5 {
        seq![Some(L7), Some(C), Some(R7), Some(Sl7), Some(Sr7), None, None, Some(Bl7), Some(Br7), None, None, Some(Lfe)]
    } else if loudspeaker_layout == 6 {
        seq![Some(L7), Some(C), Some(R7), Some(Sl7), Some(Sr7), Some(Hl), Some(Hr), Some(Bl7), Some(Br7), None, None, Some(Lfe)]
    } else if loudspeaker_layout == 7 {
        seq![Some(L7), Some(C), Some(R7), Some(Sl7), Some(Sr7), Some(Hfl), Some(Hfr), Some(Bl7), Some(Br7), Some(Hbl), Some(Hbr), Some(Lfe)]
    } else {
        seq![Some(L3), Some(C), Some(R3), None, None, Some(Tl), Some(Tr), None, None, None, None, Some(Lfe)]
    }));
    row[bit as usize]
}

/// `(channel, gain)` pairs for recon-gain flag bits `bit..12`, where gain
/// `k` is the next unused one: each set bit takes the next gain (pairing
/// stops when the gains run out) and is kept when the target layout has a
/// channel for it.
pub open spec fn spec_recon_pairs<G>(target: u8, flags: u32, gains: Seq<G>, bit: nat, k: nat) -> Seq<(Channel, G)>
    decreases RECON_CHANNEL_COUNT - bit,
{
    if bit >= RECON_CHANNEL_COUNT {
        Seq::empty()
    } else if flags & (1u32 << (bit as u32)) == 0 {
        spec_recon_pairs(target, flags, gains, bit + 1, k)
    } else if k >= gains.len() {
        Seq::empty()
    } else {
        (match spec_recon_channel(target, bit as u8) {
            Some(ch) => seq![(ch, gains[k as int])],
            None => Seq::empty(),
        }) + spec_recon_pairs(target, flags, gains, bit + 1, k + 1)
    }
}

proof fn lemma_recon_pairs_exhausted<G>(target: u8, flags: u32, gains: Seq<G>, bit: nat, k: nat)
    requires
        k >= gains.len(),
    ensures
        spec_recon_pairs(target, flags, gains, bit, k) == Seq::<(Channel, G)>::empty(),
    decreases RECON_CHANNEL_COUNT - bit,
{
    if bit < RECON_CHANNEL_COUNT {
        lemma_recon_pairs_exhausted(target, flags, gains, bit + 1, k);
    }
}

/// `(channel, gain)` pairs for a recon-gain flags word: one entry per set
/// flag bit in ascending order, paired with `gains` in the same order, and
/// dropped (gain consumed) when the target layout lacks the channel
///.
pub fn recon_channel_gains<G: Copy>(target_layout: u8, flags: u32, gains: &[G]) -> (pairs: Vec<(Channel, G)>)
    ensures
        pairs@ == spec_recon_pairs(target_layout, flags, gains@, 0, 0),
{
    let mut out: Vec<(Channel, G)> = Vec::new();
    let mut bit: u8 = 0;
    let mut k: usize = 0;
    while bit < RECON_CHANNEL_COUNT as u8
        invariant
            bit <= RECON_CHANNEL_COUNT,
            k <= gains@.len(),
            out@ + spec_recon_pairs(target_layout, flags, gains@, bit as nat, k as nat) == spec_recon_pairs(
                target_layout,
                flags,
                gains@,
                0,
                0,
            ),
        decreases RECON_CHANNEL_COUNT - bit,
    {
        if flags & (1u32 << (bit as u32)) != 0 {
            if k >= gains.len() {
                assert(out@ + spec_recon_pairs(target_layout, flags, gains@, bit as nat, k as nat) =~= out@);
                return out;
            }
            let gain = gains[k];
            let ghost before = out@;
            match recon_channel(target_layout, bit) {
                Some(ch) => {
                    out.push((ch, gain));
                    assert(out@ =~= before + seq![(ch, gain)]);
                },
                None => {},
            }
            assert(before + spec_recon_pairs(target_layout, flags, gains@, bit as nat, k as nat) =~= out@
                + spec_recon_pairs(target_layout, flags, gains@, (bit + 1) as nat, (k + 1) as nat));
            k = k + 1;
        }
        bit = bit + 1;
    }
    assert(out@ =~= out@ + spec_recon_pairs(target_layout, flags, gains@, bit as nat, k as nat));
    out
}

/// Default recon-gain flags for reconstructing `target` from `first`: none
/// for the same layout; otherwise L/R (up to 3 surround channels), Ls/Rs (5)
/// or Lb/Rb (7) when the surround count changes, Ltb/Rtb when the target
/// gains 4 heights, and Ltf/Rtf for a 5-surround target with unchanged
/// nonzero heights.
pub open spec fn spec_default_recon_flags(first: u8, target: u8) -> u32 {
    if first == target {
        0
    } else {
        let (s1, t1) = spec_surround_height(first);
        let (s2, t2) = spec_surround_height(target);
        let a: u32 = if s1 != s2 {
            if s2 <= 3 {
                (1u32 << 0u32) | (1u32 << 2u32)
            } else if s2 == 5 {
                (1u32 << 3u32) | (1u32 << 4u32)
            } else if s2 == 7 {
                (1u32 << 7u32) | (1u32 << 8u32)
            } else {
                0
            }
        } else {
            0
        };
        let b: u32 = if t2 != t1 && t2 == 4 {
            (1u32 << 9u32) | (1u32 << 10u32)
        } else {
            0
        };
        let c: u32 = if s2 == 5 && t1 != 0 && t2 == t1 {
            (1u32 << 5u32) | (1u32 << 6u32)
        } else {
            0
        };
        a | b | c
    }
}

/// Default recon-gain flags for reconstructing `target` from `first` layer
///.
pub fn default_recon_flags(first_layout: u8, target_layout: u8) -> (flags: u32)
    ensures
        flags == spec_default_recon_flags(first_layout, target_layout),
{
    if first_layout == target_layout {
        return 0;
    }
    let (s1, t1) = surround_height(first_layout);
    let (s2, t2) = surround_height(target_layout);
    let a: u32 = if s1 != s2 {
        if s2 <= 3 {
            (1u32 << 0u32) | (1u32 << 2u32)  // L, R
        } else if s2 == 5 {
            (1u32 << 3u32) | (1u32 << 4u32)  // Ls, Rs
        } else if s2 == 7 {
            (1u32 << 7u32) | (1u32 << 8u32)  // Lb, Rb
        } else {
            0
        }
    } else {
        0
    };
    let b: u32 = if t2 != t1 && t2 == 4 {
        (1u32 << 9u32) | (1u32 << 10u32)  // Ltb, Rtb
    } else {
        0
    };
    let c: u32 = if s2 == 5 && t1 != 0 && t2 == t1 {
        (1u32 << 5u32) | (1u32 << 6u32)  // Ltf, Rtf
    } else {
        0
    };
    a | b | c
}

} // verus!
