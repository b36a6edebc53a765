//! Enumerations that describe slicing and per-slice effect settings,
//! their display labels, and the integer codes a preset stores them under.

use vstd::prelude::*;

verus! {

/// Beat-grid resolution used by grid slicing.
#[derive(Debug, Clone, Copy, PartialEq, Eq, Structural)]
pub enum GridDivision {
    Quarter,
    Eighth,
    Sixteenth,
    ThirtySecond,
}

/// Number of grid slices per beat.
pub open spec fn grid_slices_per_beat(d: GridDivision) -> nat {
    match d {
        GridDivision::Quarter => 1,
        GridDivision::Eighth => 2,
        GridDivision::Sixteenth => 4,
        GridDivision::ThirtySecond => 8,
    }
}

pub open spec fn grid_label(d: GridDivision) -> Seq<char> {
    match d {
        GridDivision::Quarter => "1/4"@,
        GridDivision::Eighth => "1/8"@,
        GridDivision::Sixteenth => "1/16"@,
        GridDivision::ThirtySecond => "1/32"@,
    }
}

/// Frames in one grid slice: a beat of `samples_per_beat` frames is cut into
/// `grid_slices_per_beat` equal parts, rounding down, and a slice is never
/// shorter than one frame.
pub open spec fn grid_slice_frames(d: GridDivision, samples_per_beat: nat) -> nat {
    let q = samples_per_beat / grid_slices_per_beat(d);
    if q >= 1 { q } else { 1 }
}

impl GridDivision {
    pub fn label(self) -> (s: &'static str)
        ensures
            s@ == grid_label(self),
    {
        match self {
            GridDivision::Quarter => "1/4",
            GridDivision::Eighth => "1/8",
            GridDivision::Sixteenth => "1/16",
            GridDivision::ThirtySecond => "1/32",
        }
    }

    /// Length in frames of one slice of this grid when a beat lasts
    /// `samples_per_beat` frames: the beat divided by 1, 2, 4 or 8, rounded
    /// down, and at least one frame.
    pub fn slice_frames(self, samples_per_beat: usize) -> (n: usize)
        ensures
            n == grid_slice_frames(self, samples_per_beat as nat),
            n >= 1,
    {
        let per: usize = match self {
            GridDivision::Quarter => 1,
            GridDivision::Eighth => 2,
            GridDivision::Sixteenth => 4,
            GridDivision::ThirtySecond => 8,
        };
        let q = samples_per_beat / per;
        if q >= 1 { q } else { 1 }
    }
}

/// Per-slice filter type.
#[derive(Debug, Clone, Copy, PartialEq, Eq, Structural)]
pub enum FilterMode {
    Off,
    Lowpass,
    Highpass,
    Bandpass,
}

pub open spec fn filter_label(m: FilterMode) -> Seq<char> {
    match m {
        FilterMode::Off => "Off"@,
        FilterMode::Lowpass => "Lowpass"@,
        FilterMode::Highpass => "Highpass"@,
        FilterMode::Bandpass => "Bandpass"@,
    }
}

/// Preset code of a filter mode.
pub open spec fn filter_code(m: FilterMode) -> u8 {
    match m {
        FilterMode::Off => 0,
        FilterMode::Lowpass => 1,
        FilterMode::Highpass => 2,
        FilterMode::Bandpass => 3,
    }
}

/// Filter mode stored under a preset code; unknown codes read as `Off`.
pub open spec fn filter_from_code(c: u8) -> FilterMode {
    if c == 1 {
        FilterMode::Lowpass
    } else if c == 2 {
        FilterMode::Highpass
    } else if c == 3 {
        FilterMode::Bandpass
    } else {
        FilterMode::Off
    }
}

impl FilterMode {
    pub fn label(self) -> (s: &'static str)
        ensures
            s@ == filter_label(self),
    {
        match self {
            FilterMode::Off => "Off",
            FilterMode::Lowpass => "Lowpass",
            FilterMode::Highpass => "Highpass",
            FilterMode::Bandpass => "Bandpass",
        }
    }

    pub fn to_code(self) -> (c: u8)
        ensures
            c == filter_code(self),
    {
        match self {
            FilterMode::Off => 0,
            FilterMode::Lowpass => 1,
            FilterMode::Highpass => 2,
            FilterMode::Bandpass => 3,
        }
    }

    pub fn from_code(c: u8) -> (m: FilterMode)
        ensures
            m == filter_from_code(c),
    {
        match c {
            1 => FilterMode::Lowpass,
            2 => FilterMode::Highpass,
            3 => FilterMode::Bandpass,
            _ => FilterMode::Off,
        }
    }
}

/// Rhythmic retrigger ("roll") rate of a slice.
#[derive(Debug, Clone, Copy, PartialEq, Eq, Structural)]
pub enum RetriggerRate {
    Off,
    Eighth,
    Sixteenth,
    ThirtySecond,
    SixtyFourth,
}

pub open spec fn retrigger_label(r: RetriggerRate) -> Seq<char> {
    match r {
        RetriggerRate::Off => "Off"@,
        RetriggerRate::Eighth => "1/8"@,
        RetriggerRate::Sixteenth => "1/16"@,
        RetriggerRate::ThirtySecond => "1/32"@,
        RetriggerRate::SixtyFourth => "1/64"@,
    }
}

/// Notes of this length per bar (0 when retriggering is off).
pub open spec fn retrigger_division(r: RetriggerRate) -> usize {
    match r {
        RetriggerRate::Off => 0,
        RetriggerRate::Eighth => 8,
        RetriggerRate::Sixteenth => 16,
        RetriggerRate::ThirtySecond => 32,
        RetriggerRate::SixtyFourth => 64,
    }
}

pub open spec fn retrigger_code(r: RetriggerRate) -> u8 {
    match r {
        RetriggerRate::Off => 0,
        RetriggerRate::Eighth => 1,
        RetriggerRate::Sixteenth => 2,
        RetriggerRate::ThirtySecond => 3,
        RetriggerRate::SixtyFourth => 4,
    }
}

pub open spec fn retrigger_from_code(c: u8) -> RetriggerRate {
    if c == 1 {
        RetriggerRate::Eighth
    } else if c == 2 {
        RetriggerRate::Sixteenth
    } else if c == 3 {
        RetriggerRate::ThirtySecond
    } else if c == 4 {
        RetriggerRate::SixtyFourth
    } else {
        RetriggerRate::Off
    }
}

impl RetriggerRate {
    pub fn label(self) -> (s: &'static str)
        ensures
            s@ == retrigger_label(self),
    {
        match self {
            RetriggerRate::Off => "Off",
            RetriggerRate::Eighth => "1/8",
            RetriggerRate::Sixteenth => "1/16",
            RetriggerRate::ThirtySecond => "1/32",
            RetriggerRate::SixtyFourth => "1/64",
        }
    }

    pub fn division_factor(self) -> (n: usize)
        ensures
            n == retrigger_division(self),
    {
        match self {
            RetriggerRate::Off => 0,
            RetriggerRate::Eighth => 8,
            RetriggerRate::Sixteenth => 16,
            RetriggerRate::ThirtySecond => 32,
            RetriggerRate::SixtyFourth => 64,
        }
    }

    pub fn to_code(self) -> (c: u8)
        ensures
            c == retrigger_code(self),
    {
        match self {
            RetriggerRate::Off => 0,
            RetriggerRate::Eighth => 1,
            RetriggerRate::Sixteenth => 2,
            RetriggerRate::ThirtySecond => 3,
            RetriggerRate::SixtyFourth => 4,
        }
    }

    pub fn from_code(c: u8) -> (r: RetriggerRate)
        ensures
            r == retrigger_from_code(c),
    {
        match c {
            1 => RetriggerRate::Eighth,
            2 => RetriggerRate::Sixteenth,
            3 => RetriggerRate::ThirtySecond,
            4 => RetriggerRate::SixtyFourth,
            _ => RetriggerRate::Off,
        }
    }
}

/// Dub-echo delay time of a slice.
#[derive(Debug, Clone, Copy, PartialEq, Eq, Structural)]
pub enum DelayRate {
    Off,
    Ms,
    SixtyFourth,
    ThirtySecond,
    Sixteenth,
    DottedSixteenth,
    Eighth,
    DottedEighth,
    Quarter,
    Half,
}

pub open spec fn delay_label(r: DelayRate) -> Seq<char> {
    match r {
        DelayRate::Off => "Off"@,
        DelayRate::Ms => "Free ms"@,
        DelayRate::SixtyFourth => "1/64"@,
        DelayRate::ThirtySecond => "1/32"@,
        DelayRate::Sixteenth => "1/16"@,
        DelayRate::DottedSixteenth => "1/16 Dotted"@,
        DelayRate::Eighth => "1/8"@,
        DelayRate::DottedEighth => "3/16 Dotted"@,
        DelayRate::Quarter => "1/4"@,
        DelayRate::Half => "1/2"@,
    }
}

/// Preset code of a delay rate. The preset format has no code of its own for
/// free-milliseconds mode or the dotted sixteenth; both are stored as 0.
pub open spec fn delay_code(r: DelayRate) -> u8 {
    match r {
        DelayRate::SixtyFourth => 1,
        DelayRate::ThirtySecond => 2,
        DelayRate::Sixteenth => 3,
        DelayRate::Eighth => 4,
        DelayRate::DottedEighth => 5,
        DelayRate::Quarter => 6,
        DelayRate::Half => 7,
        _ => 0,
    }
}

pub open spec fn delay_from_code(c: u8) -> DelayRate {
    if c == 1 {
        DelayRate::SixtyFourth
    } else if c == 2 {
        DelayRate::ThirtySecond
    } else if c == 3 {
        DelayRate::Sixteenth
    } else if c == 4 {
        DelayRate::Eighth
    } else if c == 5 {
        DelayRate::DottedEighth
    } else if c == 6 {
        DelayRate::Quarter
    } else if c == 7 {
        DelayRate::Half
    } else {
        DelayRate::Off
    }
}

impl DelayRate {
    pub fn label(self) -> (s: &'static str)
        ensures
            s@ == delay_label(self),
    {
        match self {
            DelayRate::Off => "Off",
            DelayRate::Ms => "Free ms",
            DelayRate::SixtyFourth => "1/64",
            DelayRate::ThirtySecond => "1/32",
            DelayRate::Sixteenth => "1/16",
            DelayRate::DottedSixteenth => "1/16 Dotted",
            DelayRate::Eighth => "1/8",
            DelayRate::DottedEighth => "3/16 Dotted",
            DelayRate::Quarter => "1/4",
            DelayRate::Half => "1/2",
        }
    }

    pub fn to_code(self) -> (c: u8)
        ensures
            c == delay_code(self),
    {
        match self {
            DelayRate::SixtyFourth => 1,
            DelayRate::ThirtySecond => 2,
            DelayRate::Sixteenth => 3,
            DelayRate::Eighth => 4,
            DelayRate::DottedEighth => 5,
            DelayRate::Quarter => 6,
            DelayRate::Half => 7,
            _ => 0,
        }
    }

    pub fn from_code(c: u8) -> (r: DelayRate)
        ensures
            r == delay_from_code(c),
    {
        match c {
            1 => DelayRate::SixtyFourth,
            2 => DelayRate::ThirtySecond,
            3 => DelayRate::Sixteenth,
            4 => DelayRate::Eighth,
            5 => DelayRate::DottedEighth,
            6 => DelayRate::Quarter,
            7 => DelayRate::Half,
            _ => DelayRate::Off,
        }
    }
}

/// Style of the generative break shuffler.
#[derive(Debug, Clone, Copy, PartialEq, Eq, Structural)]
pub enum ShuffleStyle {
    AmenRoller,
    SyncopatedFunk,
    GhostNotesOnly,
    WildChopper,
}

pub open spec fn shuffle_label(s: ShuffleStyle) -> Seq<char> {
    match s {
        ShuffleStyle::AmenRoller => "Amen Roller"@,
        ShuffleStyle::SyncopatedFunk => "Syncopated Funk"@,
        ShuffleStyle::GhostNotesOnly => "Ghost Notes Only"@,
        ShuffleStyle::WildChopper => "Wild Chopper"@,
    }
}

impl ShuffleStyle {
    pub fn label(self) -> (s: &'static str)
        ensures
            s@ == shuffle_label(self),
    {
        match self {
            ShuffleStyle::AmenRoller => "Amen Roller",
            ShuffleStyle::SyncopatedFunk => "Syncopated Funk",
            ShuffleStyle::GhostNotesOnly => "Ghost Notes Only",
            ShuffleStyle::WildChopper => "Wild Chopper",
        }
    }
}

/// The slicing method the editor's slicing panel shows.
#[derive(Debug, Clone, Copy, PartialEq, Eq, Structural)]
pub enum SlicingModeTab {
    Transient,
    Grid,
    Manual,
}

/// A filter mode written to a preset reads back unchanged.
pub proof fn filter_code_roundtrip(m: FilterMode)
    ensures
        filter_from_code(filter_code(m)) == m,
{
}

/// A retrigger rate written to a preset reads back unchanged.
pub proof fn retrigger_code_roundtrip(r: RetriggerRate)
    ensures
        retrigger_from_code(retrigger_code(r)) == r,
{
}

/// A delay rate written to a preset reads back unchanged, except the two
/// rates the preset format has no code for, which read back as `Off`.
pub proof fn delay_code_roundtrip(r: DelayRate)
    ensures
        r != DelayRate::Ms && r != DelayRate::DottedSixteenth ==> delay_from_code(delay_code(r)) == r,
        r == DelayRate::Ms || r == DelayRate::DottedSixteenth ==> delay_from_code(delay_code(r)) == DelayRate::Off,
{
}

} // verus!
