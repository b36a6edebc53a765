//! Data exchanged with the REX2 decoder: status codes, file and slice
//! information, and how a decoded loop's length is settled.

use vstd::prelude::*;

verus! {

/// Status of a decoder call.
#[derive(Debug, Clone, Copy, PartialEq, Eq, Structural)]
pub enum VLError {
    Success,
    InvalidHandle,
    InvalidArg,
    FileNotFound,
    FileCorrupt,
    OutOfMemory,
    InvalidSlice,
    InvalidSampleRate,
    BufferTooSmall,
    NoCreatorInfo,
    NotImplemented,
    AlreadyHasData,
    FileTooNew,
    ZeroLoopLength,
    InvalidSize,
    InvalidTempo,
}

/// The decoder's numeric code of a status: 0 for success, then -1, -2, ...
/// in declaration order.
pub open spec fn vl_code(e: VLError) -> int {
    match e {
        VLError::Success => 0,
        VLError::InvalidHandle => -1,
        VLError::InvalidArg => -2,
        VLError::FileNotFound => -3,
        VLError::FileCorrupt => -4,
        VLError::OutOfMemory => -5,
        VLError::InvalidSlice => -6,
        VLError::InvalidSampleRate => -7,
        VLError::BufferTooSmall => -8,
        VLError::NoCreatorInfo => -9,
        VLError::NotImplemented => -10,
        VLError::AlreadyHasData => -11,
        VLError::FileTooNew => -12,
        VLError::ZeroLoopLength => -13,
        VLError::InvalidSize => -14,
        VLError::InvalidTempo => -15,
    }
}

impl VLError {
    pub fn is_ok(self) -> (r: bool)
        ensures
            r == (self == VLError::Success),
    {
        match self {
            VLError::Success => true,
            _ => false,
        }
    }

    pub fn code(self) -> (c: i32)
        ensures
            c as int == vl_code(self),
    {
        match self {
            VLError::Success => 0,
            VLError::InvalidHandle => -1,
            VLError::InvalidArg => -2,
            VLError::FileNotFound => -3,
            VLError::FileCorrupt => -4,
            VLError::OutOfMemory => -5,
            VLError::InvalidSlice => -6,
            VLError::InvalidSampleRate => -7,
            VLError::BufferTooSmall => -8,
            VLError::NoCreatorInfo => -9,
            VLError::NotImplemented => -10,
            VLError::AlreadyHasData => -11,
            VLError::FileTooNew => -12,
            VLError::ZeroLoopLength => -13,
            VLError::InvalidSize => -14,
            VLError::InvalidTempo => -15,
        }
    }

    /// The status with numeric code `c`, if there is one.
    pub fn from_code(c: i32) -> (e: Option<VLError>)
        ensures
            match e {
                Some(x) => vl_code(x) == c as int,
                None => forall|x: VLError| vl_code(x) != c as int,
            },
    {
        match c {
            0 => Some(VLError::Success),
            -1 => Some(VLError::InvalidHandle),
            -2 => Some(VLError::InvalidArg),
            -3 => Some(VLError::FileNotFound),
            -4 => Some(VLError::FileCorrupt),
            -5 => Some(VLError::OutOfMemory),
            -6 => Some(VLError::InvalidSlice),
            -7 => Some(VLError::InvalidSampleRate),
            -8 => Some(VLError::BufferTooSmall),
            -9 => Some(VLError::NoCreatorInfo),
            -10 => Some(VLError::NotImplemented),
            -11 => Some(VLError::AlreadyHasData),
            -12 => Some(VLError::FileTooNew),
            -13 => Some(VLError::ZeroLoopLength),
            -14 => Some(VLError::InvalidSize),
            -15 => Some(VLError::InvalidTempo),
            _ => None,
        }
    }
}

/// Distinct statuses have distinct codes, so a status survives the trip
/// through its code.
pub proof fn vl_code_roundtrip(a: VLError, b: VLError)
    ensures
        vl_code(a) == vl_code(b) ==> a == b,
{
}

/// Whole-file information reported by the decoder.
#[derive(Debug, Clone, Copy, PartialEq, Eq, Structural)]
pub struct VLFileInfo {
    pub channels: i32,
    pub sample_rate: i32,
    pub slice_count: i32,
    /// Tempo in thousandths of a beat per minute.
    pub tempo: i32,
    pub original_tempo: i32,
    pub ppq_length: i32,
    pub time_sig_num: i32,
    pub time_sig_den: i32,
    pub bit_depth: i32,
    pub total_frames: i32,
    pub loop_start: i32,
    pub loop_end: i32,
    pub processing_gain: i32,
    pub transient_enabled: i32,
    pub transient_attack: i32,
    pub transient_decay: i32,
    pub transient_stretch: i32,
    pub silence_selected: i32,
}

impl VLFileInfo {
    /// All fields zero.
    pub fn zeroed() -> (i: Self)
        ensures
            i.channels == 0 && i.sample_rate == 0 && i.slice_count == 0 && i.tempo == 0 && i.original_tempo == 0
                && i.ppq_length == 0 && i.time_sig_num == 0 && i.time_sig_den == 0 && i.bit_depth == 0
                && i.total_frames == 0 && i.loop_start == 0 && i.loop_end == 0 && i.processing_gain == 0
                && i.transient_enabled == 0 && i.transient_attack == 0 && i.transient_decay == 0
                && i.transient_stretch == 0 && i.silence_selected == 0,
    {
        VLFileInfo {
            channels: 0,
            sample_rate: 0,
            slice_count: 0,
            tempo: 0,
            original_tempo: 0,
            ppq_length: 0,
            time_sig_num: 0,
            time_sig_den: 0,
            bit_depth: 0,
            total_frames: 0,
            loop_start: 0,
            loop_end: 0,
            processing_gain: 0,
            transient_enabled: 0,
            transient_attack: 0,
            transient_decay: 0,
            transient_stretch: 0,
            silence_selected: 0,
        }
    }
}

/// Per-slice information reported by the decoder.
#[derive(Debug, Clone, Copy, PartialEq, Eq, Structural)]
pub struct VLSliceInfo {
    pub ppq_pos: i32,
    pub sample_length: i32,
    pub sample_start: i32,
    pub analysis_points: i32,
    pub flags: i32,
}

impl VLSliceInfo {
    /// All fields zero.
    pub fn zeroed() -> (i: Self)
        ensures
            i.ppq_pos == 0 && i.sample_length == 0 && i.sample_start == 0 && i.analysis_points == 0 && i.flags == 0,
    {
        VLSliceInfo { ppq_pos: 0, sample_length: 0, sample_start: 0, analysis_points: 0, flags: 0 }
    }
}

/// An opened REX file's information.
pub struct Rex2File {
    pub info: VLFileInfo,
}

impl Rex2File {
    pub fn slice_count(&self) -> (n: i32)
        ensures
            n == self.info.slice_count,
    {
        self.info.slice_count
    }

    /// Length of the decoded loop: the file's own frame count when it gives
    /// one, else the length its tempo and musical length imply
    /// (`tempo_frames`, when those are known), never more than the
    /// `decoded_frames` actually decoded.
    pub fn loop_length(&self, decoded_frames: usize, tempo_frames: Option<usize>) -> (n: usize)
        ensures
            n == (if self.info.total_frames > 0 {
                if (self.info.total_frames as int) <= decoded_frames { self.info.total_frames as int } else { decoded_frames as int }
            } else {
                match tempo_frames {
                    Some(t) => if t <= decoded_frames { t as int } else { decoded_frames as int },
                    None => decoded_frames as int,
                }
            }),
    {
        if self.info.total_frames > 0 {
            let t = self.info.total_frames as usize;
            if t <= decoded_frames { t } else { decoded_frames }
        } else {
            match tempo_frames {
                Some(t) => if t <= decoded_frames { t } else { decoded_frames },
                None => decoded_frames,
            }
        }
    }
}

} // verus!
