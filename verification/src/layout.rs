//! Output layouts.

use vstd::prelude::*;

verus! {

/// Target loudspeaker layout for rendering.
#[derive(Debug, Clone, Copy, PartialEq, Eq, Structural)]
pub enum Layout {
    Mono,
    /// Sound system A (0+2+0).
    Stereo,
    /// Sound system B (0+5+0).
    Surround5_1,
    /// Sound system I (4+7+0), a.k.a. 7.1.4.
    Surround7_1_4,
}

impl Layout {
    pub open spec fn spec_channel_count(&self) -> u8 {
        match self {
            Layout::Mono => 1,
            Layout::Stereo => 2,
            Layout::Surround5_1 => 6,
            Layout::Surround7_1_4 => 12,
        }
    }

    pub fn channel_count(&self) -> (n: u8)
        ensures
            n == self.spec_channel_count(),
    {
        match self {
            Layout::Mono => 1,
            Layout::Stereo => 2,
            Layout::Surround5_1 => 6,
            Layout::Surround7_1_4 => 12,
        }
    }
}

/// Output sound systems: the loudspeaker systems A..=J as the IAMF
/// `sound_system` field numbers them (0..=9), the IAMF extensions (7.1.2,
/// 3.1.2, mono, 9.1.6) as 10..=13, and binaural (two-channel headphone
/// output) as 14.
#[derive(Debug, Clone, Copy, PartialEq, Eq, Structural)]
pub enum SoundSystem {
    /// 0+2+0 (stereo).
    A,
    /// 0+5+0 (5.1).
    B,
    /// 2+5+0 (5.1.2).
    C,
    /// 4+5+0 (5.1.4).
    D,
    /// 4+5+1.
    E,
    /// 3+7+0.
    F,
    /// 4+9+0.
    G,
    /// 9+10+3.
    H,
    /// 0+7+0 (7.1).
    I,
    /// 4+7+0 (7.1.4).
    J,
    /// 7.1.2.
    Ext712,
    /// 3.1.2.
    Ext312,
    /// Mono.
    Mono,
    /// 9.1.6.
    Ext916,
    /// Binaural headphone output.
    Binaural,
}

/// The sound system numbered `n`, if any.
pub open spec fn spec_sound_system(n: u8) -> Option<SoundSystem> {
    if n == 0 {
        Some(SoundSystem::A)
    } else if n == 1 {
        Some(SoundSystem::B)
    } else if n == 2 {
        Some(SoundSystem::C)
    } else if n == 3 {
        Some(SoundSystem::D)
    } else if n == 4 {
        Some(SoundSystem::E)
    } else if n == 5 {
        Some(SoundSystem::F)
    } else if n == 6 {
        Some(SoundSystem::G)
    } else if n == 7 {
        Some(SoundSystem::H)
    } else if n == 8 {
        Some(SoundSystem::I)
    } else if n == 9 {
        Some(SoundSystem::J)
    } else if n == 10 {
        Some(SoundSystem::Ext712)
    } else if n == 11 {
        Some(SoundSystem::Ext312)
    } else if n == 12 {
        Some(SoundSystem::Mono)
    } else if n == 13 {
        Some(SoundSystem::Ext916)
    } else if n == 14 {
        Some(SoundSystem::Binaural)
    } else {
        None
    }
}

impl SoundSystem {
    /// The sound system numbered `n` (0..=14), `None` beyond.
    pub fn from_u8(n: u8) -> (s: Option<SoundSystem>)
        ensures
            s == spec_sound_system(n),
    {
        match n {
            0 => Some(SoundSystem::A),
            1 => Some(SoundSystem::B),
            2 => Some(SoundSystem::C),
            3 => Some(SoundSystem::D),
            4 => Some(SoundSystem::E),
            5 => Some(SoundSystem::F),
            6 => Some(SoundSystem::G),
            7 => Some(SoundSystem::H),
            8 => Some(SoundSystem::I),
            9 => Some(SoundSystem::J),
            10 => Some(SoundSystem::Ext712),
            11 => Some(SoundSystem::Ext312),
            12 => Some(SoundSystem::Mono),
            13 => Some(SoundSystem::Ext916),
            14 => Some(SoundSystem::Binaural),
            _ => None,
        }
    }

    /// Number of output channels.
    pub open spec fn spec_channels(self) -> nat {
        match self {
            SoundSystem::A => 2,
            SoundSystem::B => 6,
            SoundSystem::C => 8,
            SoundSystem::D => 10,
            SoundSystem::E => 11,
            SoundSystem::F => 12,
            SoundSystem::G => 14,
            SoundSystem::H => 24,
            SoundSystem::I => 8,
            SoundSystem::J => 12,
            SoundSystem::Ext712 => 10,
            SoundSystem::Ext312 => 6,
            SoundSystem::Mono => 1,
            SoundSystem::Ext916 => 16,
            SoundSystem::Binaural => 2,
        }
    }

    pub fn channels(self) -> (n: usize)
        ensures
            n == self.spec_channels(),
    {
        match self {
            SoundSystem::A => 2,
            SoundSystem::B => 6,
            SoundSystem::C => 8,
            SoundSystem::D => 10,
            SoundSystem::E => 11,
            SoundSystem::F => 12,
            SoundSystem::G => 14,
            SoundSystem::H => 24,
            SoundSystem::I => 8,
            SoundSystem::J => 12,
            SoundSystem::Ext712 => 10,
            SoundSystem::Ext312 => 6,
            SoundSystem::Mono => 1,
            SoundSystem::Ext916 => 16,
            SoundSystem::Binaural => 2,
        }
    }
}

/// The sound system a channel layer's `loudspeaker_layout` (0..=8: mono,
/// stereo, 5.1, 5.1.2, 5.1.4, 7.1, 7.1.2, 7.1.4, 3.1.2) plays on.
pub open spec fn spec_loudspeaker_sound_system(layout: u8) -> Option<SoundSystem> {
    if layout == 0 {
        Some(SoundSystem::Mono)
    } else if layout == 1 {
        Some(SoundSystem::A)
    } else if layout == 2 {
        Some(SoundSystem::B)
    } else if layout == 3 {
        Some(SoundSystem::C)
    } else if layout == 4 {
        Some(SoundSystem::D)
    } else if layout == 5 {
        Some(SoundSystem::I)
    } else if layout == 6 {
        Some(SoundSystem::Ext712)
    } else if layout == 7 {
        Some(SoundSystem::J)
    } else if layout == 8 {
        Some(SoundSystem::Ext312)
    } else {
        None
    }
}

pub fn loudspeaker_sound_system(layout: u8) -> (s: Option<SoundSystem>)
    ensures
        s == spec_loudspeaker_sound_system(layout),
{
    match layout {
        0 => Some(SoundSystem::Mono),
        1 => Some(SoundSystem::A),
        2 => Some(SoundSystem::B),
        3 => Some(SoundSystem::C),
        4 => Some(SoundSystem::D),
        5 => Some(SoundSystem::I),
        6 => Some(SoundSystem::Ext712),
        7 => Some(SoundSystem::J),
        8 => Some(SoundSystem::Ext312),
        _ => None,
    }
}

} // verus!
