//! Playback decisions of the sampler: which slice a MIDI note triggers, which
//! sounding voices a new note cuts off, and which frame a voice reads.

use vstd::prelude::*;
use crate::layout::{Slice, SliceLoop, sat_sub};
use crate::params::RetriggerRate;

verus! {

/// Index of the first slice mapped to `note`, if any.
pub open spec fn slice_with_note<T, E, L>(s: Seq<Slice<T, E, L>>, note: u8) -> Option<int>
    decreases s.len(),
{
    if s.len() == 0 {
        None
    } else {
        match slice_with_note(s.drop_last(), note) {
            Some(i) => Some(i),
            None => if s.last().note == note {
                Some(s.len() - 1)
            } else {
                None
            },
        }
    }
}

proof fn lemma_slice_with_note<T, E, L>(s: Seq<Slice<T, E, L>>, note: u8)
    ensures
        match slice_with_note(s, note) {
            Some(i) => 0 <= i < s.len() && s[i].note == note && forall|j: int| 0 <= j < i ==> #[trigger] s[j].note != note,
            None => forall|j: int| 0 <= j < s.len() ==> #[trigger] s[j].note != note,
        },
    decreases s.len(),
{
    if s.len() > 0 {
        lemma_slice_with_note(s.drop_last(), note);
        assert forall|j: int| 0 <= j < s.len() - 1 implies s.drop_last()[j] == s[j] by {}
    }
}

/// Frames of a slice that play: up to the loop end.
pub open spec fn playable_frames<T, E, L>(s: Slice<T, E, L>, loop_end: usize) -> int {
    sat_sub(if s.end <= loop_end { s.end as int } else { loop_end as int }, s.start as int)
}

/// The slice a note-on triggers, with its playable length: the first slice
/// mapped to the note, unless it is muted or has nothing to play.
pub open spec fn triggered<T, E, L>(s: Seq<Slice<T, E, L>>, note: u8, loop_end: usize) -> Option<(int, int)> {
    match slice_with_note(s, note) {
        Some(i) => if !s[i].muted && playable_frames(s[i], loop_end) > 0 {
            Some((i, playable_frames(s[i], loop_end)))
        } else {
            None
        },
        None => None,
    }
}

/// A note-on for slice `new_idx` cuts off a voice playing slice `voice_idx`
/// when it is the same slice, when the voice's slice retriggers, or when both
/// slices share a choke group.
pub open spec fn cuts_off<T, E, L>(s: Seq<Slice<T, E, L>>, new_idx: int, voice_idx: int) -> bool {
    if voice_idx == new_idx {
        true
    } else if 0 <= voice_idx < s.len() {
        s[voice_idx].fx.retrigger_rate != RetriggerRate::Off || (s[new_idx].fx.choke_group > 0
            && s[voice_idx].fx.choke_group == s[new_idx].fx.choke_group)
    } else {
        false
    }
}

/// The frame a voice reads `offset` frames into a slice, held at the last
/// frame of the loop region and of the loop, or `None` when that frame lies
/// beyond the `audio_len` interleaved stereo samples.
pub open spec fn read_frame<T, E, L>(sl: SliceLoop<T, E, L>, s: Slice<T, E, L>, offset: usize, audio_len: usize) -> Option<
    usize,
> {
    let raw = s.start + offset;
    let a = sat_sub(sl.loop_end as int, 1);
    let b = sat_sub(sl.total_frames as int, 1);
    let f = if raw <= a { if raw <= b { raw } else { b } } else { if a <= b { a } else { b } };
    if f * 2 + 1 < audio_len {
        Some(f as usize)
    } else {
        None
    }
}

impl<T: Copy, E: Copy, L: Copy> SliceLoop<T, E, L> {
    /// The slice a note-on for `note` plays, with its playable length (see
    /// `triggered`).
    pub fn triggered_slice(&self, note: u8) -> (r: Option<(usize, usize)>)
        ensures
            match r {
                Some((i, n)) => triggered(self.slices@, note, self.loop_end) == Some((i as int, n as int)),
                None => triggered(self.slices@, note, self.loop_end) is None,
            },
    {
        proof {
            lemma_slice_with_note(self.slices@, note);
        }
        let n = self.slices.len();
        let mut i: usize = 0;
        while i < n
            invariant
                n == self.slices@.len(),
                0 <= i <= n,
                forall|j: int| 0 <= j < i ==> #[trigger] self.slices@[j].note != note,
            decreases n - i,
        {
            if self.slices[i].note == note {
                let s = self.slices[i];
                let clamped_end = if s.end <= self.loop_end { s.end } else { self.loop_end };
                let frames = clamped_end.saturating_sub(s.start);
                proof {
                    lemma_slice_with_note(self.slices@, note);
                    match slice_with_note(self.slices@, note) {
                        Some(k) => {
                            if k < i {
                                assert(self.slices@[k].note != note);
                            }
                            if i < k {
                                assert(self.slices@[i as int].note != note);
                            }
                        },
                        None => {
                            assert(self.slices@[i as int].note != note);
                        },
                    }
                }
                if s.muted || frames == 0 {
                    return None;
                }
                return Some((i, frames));
            }
            i = i + 1;
        }
        proof {
            lemma_slice_with_note(self.slices@, note);
            if let Some(k) = slice_with_note(self.slices@, note) {
                assert(self.slices@[k].note != note);
            }
        }
        None
    }

    /// Whether a note-on for slice `new_idx` cuts off a voice playing slice
    /// `voice_idx` (see `cuts_off`).
    pub fn cuts_off_voice(&self, new_idx: usize, voice_idx: usize) -> (r: bool)
        requires
            new_idx < self.slices.len(),
        ensures
            r == cuts_off(self.slices@, new_idx as int, voice_idx as int),
    {
        if voice_idx == new_idx {
            return true;
        }
        if voice_idx < self.slices.len() {
            let other = self.slices[voice_idx];
            let group = self.slices[new_idx].fx.choke_group;
            match other.fx.retrigger_rate {
                RetriggerRate::Off => group > 0 && other.fx.choke_group == group,
                _ => true,
            }
        } else {
            false
        }
    }

    /// The frame a voice reads `offset` frames into `slice` (see `read_frame`).
    pub fn read_frame(&self, slice: &Slice<T, E, L>, offset: usize, audio_len: usize) -> (r: Option<usize>)
        requires
            slice.start + offset <= usize::MAX,
        ensures
            r == read_frame(*self, *slice, offset, audio_len),
    {
        let raw = slice.start + offset;
        let a = self.loop_end.saturating_sub(1);
        let b = self.total_frames.saturating_sub(1);
        let f1 = if raw <= a { raw } else { a };
        let f = if f1 <= b { f1 } else { b };
        if f <= (usize::MAX - 1) / 2 && f * 2 + 1 < audio_len {
            Some(f)
        } else {
            None
        }
    }
}

/// Length, in frames, of a voice's echo line.
pub const ECHO_LINE_FRAMES: usize = 96000;

/// The echo delay in frames as the echo line can hold it: at least one frame,
/// at most one frame less than the line.
pub open spec fn echo_delay(delay_frames: usize) -> int {
    if delay_frames < 1 {
        1
    } else if delay_frames > ECHO_LINE_FRAMES - 1 {
        ECHO_LINE_FRAMES - 1
    } else {
        delay_frames as int
    }
}

/// Where the echo reads, `delay_frames` behind the slot it writes next
/// (see `echo_delay`), round the echo line. It never reads the slot being
/// written.
pub fn echo_read_index(write_pos: usize, delay_frames: usize) -> (r: usize)
    requires
        write_pos < ECHO_LINE_FRAMES,
    ensures
        r == (write_pos + ECHO_LINE_FRAMES - echo_delay(delay_frames)) % (ECHO_LINE_FRAMES as int),
        r < ECHO_LINE_FRAMES,
        r != write_pos,
{
    let d = if delay_frames < 1 {
        1
    } else if delay_frames > ECHO_LINE_FRAMES - 1 {
        ECHO_LINE_FRAMES - 1
    } else {
        delay_frames
    };
    (write_pos + ECHO_LINE_FRAMES - d) % ECHO_LINE_FRAMES
}

/// The echo line's next write slot.
pub fn echo_next_index(write_pos: usize) -> (r: usize)
    requires
        write_pos < ECHO_LINE_FRAMES,
    ensures
        r == (write_pos + 1) % (ECHO_LINE_FRAMES as int),
{
    (write_pos + 1) % ECHO_LINE_FRAMES
}

/// A note-on always cuts off a voice still playing the same slice, any voice
/// playing a retriggering slice, and any voice playing a slice of the same
/// choke group; a voice of another slice that neither retriggers nor shares
/// a choke group with the new one plays on.
pub proof fn note_on_choke_rules<T, E, L>(s: Seq<Slice<T, E, L>>, new_idx: int, voice_idx: int)
    requires
        0 <= new_idx < s.len(),
        0 <= voice_idx < s.len(),
    ensures
        cuts_off(s, new_idx, new_idx),
        s[voice_idx].fx.retrigger_rate != RetriggerRate::Off ==> cuts_off(s, new_idx, voice_idx),
        s[new_idx].fx.choke_group > 0 && s[voice_idx].fx.choke_group == s[new_idx].fx.choke_group ==> cuts_off(
            s,
            new_idx,
            voice_idx,
        ),
        voice_idx != new_idx && s[voice_idx].fx.retrigger_rate == RetriggerRate::Off && (s[new_idx].fx.choke_group
            == 0 || s[voice_idx].fx.choke_group != s[new_idx].fx.choke_group) ==> !cuts_off(s, new_idx, voice_idx),
{
}

} // verus!
