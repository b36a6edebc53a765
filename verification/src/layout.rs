//! The slice layout of a loaded loop: which frame range each slice covers,
//! which MIDI note triggers it, and the editing operations on that layout.
//!
//! Sample data and the continuous-valued per-slice settings are carried
//! through the layout as opaque type parameters that the layout logic never
//! looks inside: `T` for the mix (gain, pan), `E` for the volume envelope
//! (fade lengths) and `L` for the continuous effect and tuning levels (pitch,
//! filter cutoff and the like).

use vstd::prelude::*;
use crate::params::{FilterMode, RetriggerRate, DelayRate, GridDivision, grid_slice_frames, filter_from_code,
    retrigger_from_code, delay_from_code, filter_code, retrigger_code, delay_code};

verus! {

/// Note of the first slice of a freshly built layout (C3).
pub const BASE_NOTE: u8 = 48;

/// Highest MIDI note.
pub const TOP_NOTE: u8 = 127;

/// Layouts are kept below this many slices so that consecutive note numbers
/// never leave the 32-bit range in which they are computed.
pub const MAX_SLICES: usize = 0x7fff_ff00;

/// Discrete per-slice effect settings; `levels` holds the continuous ones.
#[derive(Debug, Clone, Copy)]
pub struct SliceFx<L> {
    pub filter_mode: FilterMode,
    /// Sample-rate reduction factor (1 = off).
    pub downsample_factor: u32,
    pub retrigger_rate: RetriggerRate,
    /// Choke group (0 = none).
    pub choke_group: u8,
    pub delay_rate: DelayRate,
    pub levels: L,
}

/// One slice of the loop.
#[derive(Debug, Clone, Copy)]
pub struct Slice<T, E, L> {
    /// First frame of the slice.
    pub start: usize,
    /// Frame just past the slice.
    pub end: usize,
    /// MIDI note that triggers the slice.
    pub note: u8,
    pub reverse: bool,
    pub muted: bool,
    /// Mix settings (gain, pan): kept by effect copies and resets.
    pub tone: T,
    /// Volume envelope (fade-in and fade-out lengths): spread by effect
    /// copies, kept by effect resets.
    pub envelope: E,
    pub fx: SliceFx<L>,
}

/// The effect settings a new slice starts with.
pub open spec fn default_fx<L>(levels: L) -> SliceFx<L> {
    SliceFx {
        filter_mode: FilterMode::Off,
        downsample_factor: 1,
        retrigger_rate: RetriggerRate::Off,
        choke_group: 0,
        delay_rate: DelayRate::Off,
        levels: levels,
    }
}

/// A new slice over `[start, end)` triggered by `note`.
pub open spec fn fresh_slice<T, E, L>(start: usize, end: usize, note: u8, tone: T, envelope: E, levels: L) -> Slice<T, E, L> {
    Slice {
        start: start,
        end: end,
        note: note,
        reverse: false,
        muted: false,
        tone: tone,
        envelope: envelope,
        fx: default_fx(levels),
    }
}

/// `base + i`, capped at the highest MIDI note.
pub open spec fn capped_note(base: int, i: int) -> u8 {
    if base + i <= 127 {
        (base + i) as u8
    } else {
        127
    }
}

/// `n + 1`, saturating at 255.
pub open spec fn note_succ(n: u8) -> u8 {
    if n < 255 {
        (n + 1) as u8
    } else {
        255
    }
}

/// `a - b`, or 0 when `b > a`.
pub open spec fn sat_sub(a: int, b: int) -> int {
    if a >= b {
        a - b
    } else {
        0
    }
}

pub open spec fn with_end<T, E, L>(s: Slice<T, E, L>, end: usize) -> Slice<T, E, L> {
    Slice { end: end, ..s }
}

pub open spec fn with_start<T, E, L>(s: Slice<T, E, L>, start: usize) -> Slice<T, E, L> {
    Slice { start: start, ..s }
}

pub open spec fn with_note<T, E, L>(s: Slice<T, E, L>, note: u8) -> Slice<T, E, L> {
    Slice { note: note, ..s }
}

/// Every slice ends where the next one starts, and the last one ends at `total`.
pub open spec fn contiguous<T, E, L>(s: Seq<Slice<T, E, L>>, total: usize) -> bool {
    &&& forall|i: int| 0 <= i < s.len() - 1 ==> #[trigger] s[i].end == s[i + 1].start
    &&& s.len() > 0 ==> s.last().end == total
}

/// Slice starts strictly increase.
pub open spec fn starts_increasing<T, E, L>(s: Seq<Slice<T, E, L>>) -> bool {
    forall|i: int, j: int| 0 <= i < j < s.len() ==> s[i].start < s[j].start
}

/// The slices tile `[first start, total)` in order, each at least one frame long.
pub open spec fn well_formed<T, E, L>(s: Seq<Slice<T, E, L>>, total: usize) -> bool {
    &&& contiguous(s, total)
    &&& forall|i: int| 0 <= i < s.len() ==> s[i].start < #[trigger] s[i].end
}

/// The end a slice gets when ends are recomputed: the next slice's start, or
/// the loop length for the last slice.
pub open spec fn fixed_end<T, E, L>(s: Seq<Slice<T, E, L>>, i: int, total: usize) -> usize {
    if i + 1 < s.len() {
        s[i + 1].start
    } else {
        total
    }
}

/// Recompute every end from the starts.
pub open spec fn fix_ends<T, E, L>(s: Seq<Slice<T, E, L>>, total: usize) -> Seq<Slice<T, E, L>> {
    Seq::new(s.len(), |i: int| with_end(s[i], fixed_end(s, i, total)))
}

/// Renumber the notes of the slices from index `from` on, counting up from the
/// note after the preceding slice's (from C3 when `from` is 0), capped at 127.
#[verifier::opaque]
pub open spec fn renumber_from<T, E, L>(s: Seq<Slice<T, E, L>>, from: int) -> Seq<Slice<T, E, L>> {
    if from >= s.len() {
        s
    } else {
        let base: int = if from > 0 { note_succ(s[from - 1].note) as int } else { BASE_NOTE as int };
        Seq::new(
            s.len(),
            |i: int| if i < from { s[i] } else { with_note(s[i], capped_note(base, i - from)) },
        )
    }
}

/// `frame` lies strictly inside the slice.
pub open spec fn strictly_contains<T, E, L>(s: Slice<T, E, L>, frame: usize) -> bool {
    s.start < frame < s.end
}

/// Index of the first slice that strictly contains `frame`, if any.
pub open spec fn first_containing<T, E, L>(s: Seq<Slice<T, E, L>>, frame: usize) -> Option<int>
    decreases s.len(),
{
    if s.len() == 0 {
        None
    } else {
        let last = s.len() - 1;
        match first_containing(s.drop_last(), frame) {
            Some(i) => Some(i),
            None => if strictly_contains(s[last], frame) {
                Some(last)
            } else {
                None
            },
        }
    }
}

proof fn lemma_first_containing<T, E, L>(s: Seq<Slice<T, E, L>>, frame: usize)
    ensures
        match first_containing(s, frame) {
            Some(i) => 0 <= i < s.len() && strictly_contains(s[i], frame) && forall|j: int|
                0 <= j < i ==> !#[trigger] strictly_contains(s[j], frame),
            None => forall|j: int| 0 <= j < s.len() ==> !#[trigger] strictly_contains(s[j], frame),
        },
    decreases s.len(),
{
    if s.len() > 0 {
        lemma_first_containing(s.drop_last(), frame);
        assert forall|j: int| 0 <= j < s.len() - 1 implies s.drop_last()[j] == s[j] by {}
    }
}

/// The layout after splitting at `frame`, when slice `idx` is the first that
/// strictly contains it.
pub open spec fn split_at<T, E, L>(
    s: Seq<Slice<T, E, L>>,
    idx: int,
    frame: usize,
    tone: T,
    envelope: E,
    levels: L,
) -> Seq<Slice<T, E, L>> {
    let cut = s.update(idx, with_end(s[idx], frame));
    let added = fresh_slice(
        frame,
        s[idx].end,
        if note_succ(s[idx].note) <= 127 { note_succ(s[idx].note) } else { 127 },
        tone,
        envelope,
        levels,
    );
    renumber_from(cut.insert(idx + 1, added), idx + 1)
}


/// `x` limited to `[lo, hi]` (for `lo <= hi`).
pub open spec fn clamp(x: int, lo: int, hi: int) -> int {
    if x < lo {
        lo
    } else if x > hi {
        hi
    } else {
        x
    }
}

/// Where the slice after `idx` starts, or the loop length when `idx` is last.
pub open spec fn next_start<T, E, L>(s: Seq<Slice<T, E, L>>, idx: int, total: usize) -> usize {
    if idx + 1 < s.len() {
        s[idx + 1].start
    } else {
        total
    }
}

/// Moving the start marker of slice `idx` to `frame`: the marker is kept at
/// least one frame after the previous slice's start and one frame before the
/// next boundary, and the previous slice ends where the moved one now starts.
pub open spec fn moved_marker<T, E, L>(s: Seq<Slice<T, E, L>>, idx: int, frame: usize, total: usize) -> Seq<
    Slice<T, E, L>,
> {
    let c = clamp(frame as int, s[idx - 1].start + 1, sat_sub(next_start(s, idx, total) as int, 1)) as usize;
    s.update(idx - 1, with_end(s[idx - 1], c)).update(idx, with_start(s[idx], c))
}

/// Removing slice `idx` of a layout with at least two slices: the previous
/// slice takes over its range (or, when the first slice goes, the new first
/// slice is extended back to frame 0), ends are recomputed, and notes are
/// renumbered from the removal point on.
pub open spec fn removed_slice<T, E, L>(s: Seq<Slice<T, E, L>>, idx: int, total: usize) -> Seq<Slice<T, E, L>> {
    let r = s.remove(idx);
    let merged = if idx > 0 {
        r.update(idx - 1, with_end(r[idx - 1], s[idx].end))
    } else {
        r.update(0, with_start(r[0], 0))
    };
    let from = if idx < r.len() - 1 { idx } else { r.len() - 1 };
    renumber_from(fix_ends(merged, total), from)
}

/// Giving slice `idx` the note `note`: any other slice that had `note` takes
/// over the old note of slice `idx`.
pub open spec fn renoted<T, E, L>(s: Seq<Slice<T, E, L>>, idx: int, note: u8) -> Seq<Slice<T, E, L>> {
    Seq::new(
        s.len(),
        |i: int|
            if i == idx {
                with_note(s[i], note)
            } else if s[i].note == note {
                with_note(s[i], s[idx].note)
            } else {
                s[i]
            },
    )
}

/// The layout after `insert_slice_at(frame)`.
pub open spec fn inserted<T, E, L>(s: Seq<Slice<T, E, L>>, frame: usize, total: usize, tone: T, envelope: E, levels: L) -> Seq<
    Slice<T, E, L>,
> {
    if frame == 0 || frame >= total {
        s
    } else {
        match first_containing(s, frame) {
            Some(idx) => split_at(s, idx, frame, tone, envelope, levels),
            None => s,
        }
    }
}

/// The layout after `remove_slice(idx)`.
pub open spec fn removed<T, E, L>(s: Seq<Slice<T, E, L>>, idx: int, total: usize) -> Seq<Slice<T, E, L>> {
    if s.len() <= 1 || idx < 0 || idx >= s.len() {
        s
    } else {
        removed_slice(s, idx, total)
    }
}

/// The layout after `move_slice_start(idx, frame)`.
pub open spec fn moved<T, E, L>(s: Seq<Slice<T, E, L>>, idx: int, frame: usize, total: usize) -> Seq<Slice<T, E, L>> {
    if idx == 0 {
        s
    } else {
        moved_marker(s, idx, frame, total)
    }
}

/// What `move_slice_start(idx, ..)` needs: a slice before `idx`, and room for
/// the marker strictly between the previous start and the next boundary.
pub open spec fn can_move<T, E, L>(s: Seq<Slice<T, E, L>>, idx: int, total: usize) -> bool {
    idx != 0 ==> {
        &&& 0 < idx < s.len()
        &&& s[idx - 1].start + 1 <= sat_sub(next_start(s, idx, total) as int, 1)
    }
}

/// The layout fields other than the slices are equal.
pub open spec fn same_frame<T, E, L>(a: SliceLoop<T, E, L>, b: SliceLoop<T, E, L>) -> bool {
    &&& a.total_frames == b.total_frames
    &&& a.loop_start == b.loop_start
    &&& a.loop_end == b.loop_end
    &&& a.sample_rate == b.sample_rate
    &&& a.channels == b.channels
}

impl<T: Copy, E: Copy, L: Copy> Slice<T, E, L> {
    pub fn new(start: usize, end: usize, note: u8, tone: T, envelope: E, levels: L) -> (s: Self)
        ensures
            s == fresh_slice(start, end, note, tone, envelope, levels),
    {
        Slice {
            start,
            end,
            note,
            reverse: false,
            muted: false,
            tone,
            envelope,
            fx: SliceFx {
                filter_mode: FilterMode::Off,
                downsample_factor: 1,
                retrigger_rate: RetriggerRate::Off,
                choke_group: 0,
                delay_rate: DelayRate::Off,
                levels,
            },
        }
    }

    /// Length in frames (0 for an inverted range).
    pub fn frame_count(&self) -> (n: usize)
        ensures
            n == sat_sub(self.end as int, self.start as int),
    {
        self.end.saturating_sub(self.start)
    }

    /// Put the effect and tuning settings back to their defaults, the
    /// continuous ones (pitch among them) to `levels`; the mix settings and
    /// the envelope stay.
    pub fn reset_fx(&mut self, levels: L)
        ensures
            *final(self) == (Slice { fx: default_fx(levels), ..*old(self) }),
    {
        self.fx = SliceFx {
            filter_mode: FilterMode::Off,
            downsample_factor: 1,
            retrigger_rate: RetriggerRate::Off,
            choke_group: 0,
            delay_rate: DelayRate::Off,
            levels,
        };
    }

    /// Take over the effect and tuning settings of `source`.
    pub fn copy_fx_from(&mut self, source: &Slice<T, E, L>)
        ensures
            *final(self) == (Slice { fx: source.fx, ..*old(self) }),
    {
        self.fx = source.fx;
    }
}

impl<L: Copy> SliceFx<L> {
    /// Effect settings read back from a stored preset: the filter, retrigger
    /// and delay settings from their stored codes, a stored downsample factor
    /// of 0 taken as 1 (off).
    pub fn restored(
        filter_code: u8,
        downsample_factor: u32,
        retrigger_code: u8,
        choke_group: u8,
        delay_code: u8,
        levels: L,
    ) -> (fx: Self)
        ensures
            fx == (SliceFx {
                filter_mode: filter_from_code(filter_code),
                downsample_factor: if downsample_factor >= 1 { downsample_factor } else { 1 },
                retrigger_rate: retrigger_from_code(retrigger_code),
                choke_group,
                delay_rate: delay_from_code(delay_code),
                levels,
            }),
    {
        SliceFx {
            filter_mode: FilterMode::from_code(filter_code),
            downsample_factor: if downsample_factor >= 1 { downsample_factor } else { 1 },
            retrigger_rate: RetriggerRate::from_code(retrigger_code),
            choke_group,
            delay_rate: DelayRate::from_code(delay_code),
            levels,
        }
    }
}

/// Effect settings stored in a preset by their codes read back unchanged,
/// given a downsample factor of at least 1 and a delay rate that the preset
/// format has a code for.
pub proof fn preset_fx_roundtrip<L>(fx: SliceFx<L>)
    requires
        fx.downsample_factor >= 1,
        fx.delay_rate != DelayRate::Ms,
        fx.delay_rate != DelayRate::DottedSixteenth,
    ensures
        (SliceFx {
            filter_mode: filter_from_code(filter_code(fx.filter_mode)),
            downsample_factor: if fx.downsample_factor >= 1 { fx.downsample_factor } else { 1 },
            retrigger_rate: retrigger_from_code(retrigger_code(fx.retrigger_rate)),
            choke_group: fx.choke_group,
            delay_rate: delay_from_code(delay_code(fx.delay_rate)),
            levels: fx.levels,
        }) == fx,
{
    crate::params::filter_code_roundtrip(fx.filter_mode);
    crate::params::retrigger_code_roundtrip(fx.retrigger_rate);
    crate::params::delay_code_roundtrip(fx.delay_rate);
}

/// A loaded loop's layout.
pub struct SliceLoop<T, E, L> {
    pub channels: usize,
    pub sample_rate: u32,
    pub total_frames: usize,
    /// First frame of the playback loop region.
    pub loop_start: usize,
    /// Frame just past the playback loop region.
    pub loop_end: usize,
    pub slices: Vec<Slice<T, E, L>>,
}

impl<T: Copy, E: Copy, L: Copy> SliceLoop<T, E, L> {
    /// Frames in the loop region (0 when it is inverted).
    pub fn loop_frames(&self) -> (n: usize)
        ensures
            n == sat_sub(self.loop_end as int, self.loop_start as int),
    {
        self.loop_end.saturating_sub(self.loop_start)
    }

    /// Recompute every slice end from the following slice's start; the last
    /// slice ends at the loop's total length.
    pub fn fix_slice_ends(&mut self)
        ensures
            final(self).slices@ == fix_ends(old(self).slices@, old(self).total_frames),
            final(self).total_frames == old(self).total_frames,
            final(self).loop_start == old(self).loop_start,
            final(self).loop_end == old(self).loop_end,
            final(self).sample_rate == old(self).sample_rate,
            final(self).channels == old(self).channels,
    {
        let total = self.total_frames;
        let n = self.slices.len();
        let ghost orig = self.slices@;
        let mut i: usize = 0;
        while i < n
            invariant
                self.total_frames == total,
                total == old(self).total_frames,
                orig == old(self).slices@,
                self.loop_start == old(self).loop_start,
                self.loop_end == old(self).loop_end,
                self.sample_rate == old(self).sample_rate,
                self.channels == old(self).channels,
                n == orig.len(),
                self.slices@.len() == n,
                0 <= i <= n,
                forall|k: int| 0 <= k < i ==> self.slices@[k] == with_end(orig[k], fixed_end(orig, k, total)),
                forall|k: int| i <= k < n ==> self.slices@[k] == orig[k],
            decreases n - i,
        {
            let next_start = if i + 1 < n { self.slices[i + 1].start } else { total };
            let mut s = self.slices[i];
            s.end = next_start;
            self.slices.set(i, s);
            i = i + 1;
        }
        assert(self.slices@ =~= fix_ends(orig, total));
    }

    /// Renumber notes from slice `from` on (see `renumber_from`).
    pub fn reassign_notes_from(&mut self, from: usize)
        requires
            old(self).slices.len() <= MAX_SLICES,
        ensures
            final(self).slices@ == renumber_from(old(self).slices@, from as int),
            final(self).total_frames == old(self).total_frames,
            final(self).loop_start == old(self).loop_start,
            final(self).loop_end == old(self).loop_end,
            final(self).sample_rate == old(self).sample_rate,
            final(self).channels == old(self).channels,
    {
        let n = self.slices.len();
        if from >= n {
            proof {
                reveal(renumber_from);
            }
            return;
        }
        let base: u8 = if from > 0 { self.slices[from - 1].note.saturating_add(1) } else { BASE_NOTE };
        let ghost orig = self.slices@;
        let mut i: usize = from;
        while i < n
            invariant
                orig == old(self).slices@,
                n == orig.len(),
                n <= MAX_SLICES,
                from < n,
                base as int == (if from > 0 { note_succ(orig[from - 1].note) as int } else { BASE_NOTE as int }),
                self.total_frames == old(self).total_frames,
                self.loop_start == old(self).loop_start,
                self.loop_end == old(self).loop_end,
                self.sample_rate == old(self).sample_rate,
                self.channels == old(self).channels,
                self.slices@.len() == n,
                from <= i <= n,
                forall|k: int| 0 <= k < from ==> self.slices@[k] == orig[k],
                forall|k: int| from <= k < i ==> self.slices@[k] == with_note(orig[k], capped_note(base as int, k - from)),
                forall|k: int| i <= k < n ==> self.slices@[k] == orig[k],
            decreases n - i,
        {
            let offset = i - from;
            let note: u8 = if offset <= 127 && (base as usize) + offset <= 127 {
                (base as usize + offset) as u8
            } else {
                TOP_NOTE
            };
            let mut s = self.slices[i];
            s.note = note;
            self.slices.set(i, s);
            i = i + 1;
        }
        proof {
            reveal(renumber_from);
        }
        assert(self.slices@ =~= renumber_from(orig, from as int));
    }

    /// Split the slice that strictly contains `frame` into two at `frame`;
    /// the new right half gets default settings and the notes from there on
    /// are renumbered. Nothing happens when `frame` is 0, past the loop, or on
    /// an existing boundary.
    pub fn insert_slice_at(&mut self, frame: usize, tone: T, envelope: E, levels: L)
        requires
            old(self).slices.len() < MAX_SLICES,
        ensures
            same_frame(*final(self), *old(self)),
            final(self).slices@ == inserted(old(self).slices@, frame, old(self).total_frames, tone, envelope, levels),
    {
        proof {
            lemma_first_containing(self.slices@, frame);
        }
        if frame == 0 || frame >= self.total_frames {
            return;
        }
        let n = self.slices.len();
        let mut i: usize = 0;
        let mut found = false;
        while i < n
            invariant_except_break
                n == self.slices@.len(),
                0 <= i <= n,
                !found,
                forall|j: int| 0 <= j < i ==> !#[trigger] strictly_contains(self.slices@[j], frame),
            ensures
                n == self.slices@.len(),
                found ==> i < n && strictly_contains(self.slices@[i as int], frame),
                forall|j: int| 0 <= j < i ==> !#[trigger] strictly_contains(self.slices@[j], frame),
                !found ==> i == n,
            decreases n - i,
        {
            if self.slices[i].start < frame && frame < self.slices[i].end {
                found = true;
                break;
            }
            i = i + 1;
        }
        if !found {
            return;
        }
        let idx = i;
        let ghost orig = self.slices@;
        let existing = self.slices[idx];
        let mut cut = existing;
        cut.end = frame;
        self.slices.set(idx, cut);
        let succ = existing.note.saturating_add(1);
        let new_note = if succ <= TOP_NOTE { succ } else { TOP_NOTE };
        self.slices.insert(idx + 1, Slice::new(frame, existing.end, new_note, tone, envelope, levels));
        self.reassign_notes_from(idx + 1);
    }

    /// Move the start marker of slice `slice_idx` to `new_frame` (see
    /// `moved_marker`). The first slice always starts where it is.
    pub fn move_slice_start(&mut self, slice_idx: usize, new_frame: usize)
        requires
            can_move(old(self).slices@, slice_idx as int, old(self).total_frames),
        ensures
            same_frame(*final(self), *old(self)),
            final(self).slices@ == moved(old(self).slices@, slice_idx as int, new_frame, old(self).total_frames),
    {
        if slice_idx == 0 {
            return;
        }
        let total = self.total_frames;
        let n = self.slices.len();
        assert(0 < slice_idx < n);
        let prev_start = self.slices[slice_idx - 1].start;
        let next_end = if slice_idx + 1 < n { self.slices[slice_idx + 1].start } else { total };
        let lo = prev_start + 1;
        let hi = next_end.saturating_sub(1);
        let clamped = if new_frame < lo { lo } else if new_frame > hi { hi } else { new_frame };
        let mut prev = self.slices[slice_idx - 1];
        prev.end = clamped;
        self.slices.set(slice_idx - 1, prev);
        let mut cur = self.slices[slice_idx];
        cur.start = clamped;
        self.slices.set(slice_idx, cur);
    }

    /// Remove slice `index`, merging its range into its neighbour (see
    /// `removed_slice`). A layout of one slice, or an index past the end, is
    /// left alone.
    pub fn remove_slice(&mut self, index: usize)
        requires
            old(self).slices.len() <= MAX_SLICES,
        ensures
            same_frame(*final(self), *old(self)),
            final(self).slices@ == removed(old(self).slices@, index as int, old(self).total_frames),
    {
        if self.slices.len() <= 1 || index >= self.slices.len() {
            return;
        }
        let ghost orig = self.slices@;
        let removed_end = self.slices[index].end;
        self.slices.remove(index);
        if index > 0 {
            let mut prev = self.slices[index - 1];
            prev.end = removed_end;
            self.slices.set(index - 1, prev);
        } else {
            let mut first = self.slices[0];
            first.start = 0;
            self.slices.set(0, first);
        }
        self.fix_slice_ends();
        let last = self.slices.len() - 1;
        let reassign_pos = if index < last { index } else { last };
        self.reassign_notes_from(reassign_pos);
    }

    /// Give slice `slice_idx` the note `new_note`, handing its old note to any
    /// other slice that held `new_note` (see `renoted`).
    pub fn set_slice_note(&mut self, slice_idx: usize, new_note: u8)
        ensures
            same_frame(*final(self), *old(self)),
            (slice_idx >= old(self).slices.len() || old(self).slices@[slice_idx as int].note == new_note)
                ==> final(self).slices@ == old(self).slices@,
            !(slice_idx >= old(self).slices.len() || old(self).slices@[slice_idx as int].note == new_note)
                ==> final(self).slices@ == renoted(old(self).slices@, slice_idx as int, new_note),
    {
        if slice_idx >= self.slices.len() {
            return;
        }
        let old_note = self.slices[slice_idx].note;
        if old_note == new_note {
            return;
        }
        let ghost orig = self.slices@;
        let n = self.slices.len();
        let mut i: usize = 0;
        while i < n
            invariant
                orig == old(self).slices@,
                n == orig.len(),
                self.slices@.len() == n,
                slice_idx < n,
                old_note == orig[slice_idx as int].note,
                same_frame(*self, *old(self)),
                0 <= i <= n,
                forall|k: int|
                    0 <= k < i ==> self.slices@[k] == (if k != slice_idx && orig[k].note == new_note {
                        with_note(orig[k], old_note)
                    } else {
                        orig[k]
                    }),
                forall|k: int| i <= k < n ==> self.slices@[k] == orig[k],
            decreases n - i,
        {
            if i != slice_idx && self.slices[i].note == new_note {
                let mut s = self.slices[i];
                s.note = old_note;
                self.slices.set(i, s);
            }
            i = i + 1;
        }
        let mut target = self.slices[slice_idx];
        target.note = new_note;
        self.slices.set(slice_idx, target);
        assert(self.slices@ =~= renoted(orig, slice_idx as int, new_note));
    }

    /// Give every slice the effect and tuning settings and the envelope of
    /// slice `src_idx` (nothing happens when there is no such slice); each
    /// slice keeps its range, note, mix settings, reverse and mute.
    pub fn copy_slice_fx_to_all(&mut self, src_idx: usize)
        ensures
            same_frame(*final(self), *old(self)),
            final(self).slices.len() == old(self).slices.len(),
            src_idx >= old(self).slices.len() ==> final(self).slices@ == old(self).slices@,
            src_idx < old(self).slices.len() ==> forall|k: int|
                0 <= k < old(self).slices.len() ==> #[trigger] final(self).slices@[k] == (Slice {
                    fx: old(self).slices@[src_idx as int].fx,
                    envelope: old(self).slices@[src_idx as int].envelope,
                    ..old(self).slices@[k]
                }),
    {
        if src_idx >= self.slices.len() {
            return;
        }
        let src_fx = self.slices[src_idx].fx;
        let src_env = self.slices[src_idx].envelope;
        let ghost orig = self.slices@;
        let n = self.slices.len();
        let mut i: usize = 0;
        while i < n
            invariant
                orig == old(self).slices@,
                n == orig.len(),
                self.slices@.len() == n,
                src_idx < n,
                src_fx == orig[src_idx as int].fx,
                src_env == orig[src_idx as int].envelope,
                same_frame(*self, *old(self)),
                0 <= i <= n,
                forall|k: int| 0 <= k < i ==> self.slices@[k] == (Slice { fx: src_fx, envelope: src_env, ..orig[k] }),
                forall|k: int| i <= k < n ==> self.slices@[k] == orig[k],
            decreases n - i,
        {
            let mut s = self.slices[i];
            s.fx = src_fx;
            s.envelope = src_env;
            self.slices.set(i, s);
            i = i + 1;
        }
    }

    /// Put every slice's effect and tuning settings back to their defaults
    /// (see `Slice::reset_fx`).
    pub fn reset_all_slice_fx(&mut self, levels: L)
        ensures
            same_frame(*final(self), *old(self)),
            final(self).slices.len() == old(self).slices.len(),
            forall|k: int|
                0 <= k < old(self).slices.len() ==> #[trigger] final(self).slices@[k] == (Slice {
                    fx: default_fx(levels),
                    ..old(self).slices@[k]
                }),
    {
        let ghost orig = self.slices@;
        let n = self.slices.len();
        let mut i: usize = 0;
        while i < n
            invariant
                orig == old(self).slices@,
                n == orig.len(),
                self.slices@.len() == n,
                same_frame(*self, *old(self)),
                0 <= i <= n,
                forall|k: int| 0 <= k < i ==> self.slices@[k] == (Slice { fx: default_fx(levels), ..orig[k] }),
                forall|k: int| i <= k < n ==> self.slices@[k] == orig[k],
            decreases n - i,
        {
            let mut s = self.slices[i];
            s.reset_fx(levels);
            self.slices.set(i, s);
            i = i + 1;
        }
    }
}

/// A grid layout of `[start, total)` in steps of `step` frames, the last
/// slice cut short at `total`, with notes counting up from slice number `k`.
/// Where a grid laid within the loop markers ends: the loop end, or the end
/// of the audio if that comes first.
pub open spec fn grid_end(loop_end: usize, total_frames: usize) -> usize {
    if loop_end <= total_frames {
        loop_end
    } else {
        total_frames
    }
}

pub open spec fn grid_from<T, E, L>(start: int, total: int, step: int, k: int, tone: T, envelope: E, levels: L) -> Seq<
    Slice<T, E, L>,
>
    decreases total - start,
{
    if start >= total || step <= 0 {
        Seq::empty()
    } else {
        let end = if start + step < total { start + step } else { total };
        seq![fresh_slice(start as usize, end as usize, capped_note(BASE_NOTE as int, k), tone, envelope, levels)]
            + grid_from(end, total, step, k + 1, tone, envelope, levels)
    }
}

proof fn lemma_grid_shape<T, E, L>(start: int, total: int, step: int, k: int, tone: T, envelope: E, levels: L)
    requires
        0 <= start,
        total <= usize::MAX,
        step > 0,
    ensures
        ({
            let g = grid_from(start, total, step, k, tone, envelope, levels);
            &&& start >= total ==> g.len() == 0
            &&& start < total ==> g.len() > 0 && g[0].start == start
            &&& well_formed(g, total as usize)
        }),
    decreases total - start,
{
    if start < total {
        let end = if start + step < total { start + step } else { total };
        lemma_grid_shape(end, total, step, k + 1, tone, envelope, levels);
        let g = grid_from(start, total, step, k, tone, envelope, levels);
        let rest = grid_from(end, total, step, k + 1, tone, envelope, levels);
        assert(g == seq![fresh_slice(start as usize, end as usize, capped_note(BASE_NOTE as int, k), tone, envelope, levels)] + rest);
        assert forall|i: int| 0 <= i < g.len() - 1 implies #[trigger] g[i].end == g[i + 1].start by {
            if i > 0 {
                assert(g[i] == rest[i - 1]);
                assert(g[i + 1] == rest[i]);
            }
        }
        assert forall|i: int| 0 <= i < g.len() implies g[i].start < #[trigger] g[i].end by {
            if i > 0 {
                assert(g[i] == rest[i - 1]);
            }
        }
    }
}

/// Onset frame after pulling it `pre_roll` frames earlier, as the detector's
/// 32-bit frame number.
pub open spec fn pre_rolled(p: i32, pre_roll: usize) -> i32 {
    (if (p as usize) >= pre_roll { (p as usize) - pre_roll } else { 0int }) as i32
}

/// The onset survives: positive and strictly inside the loop region.
pub open spec fn onset_kept(q: i32, loop_start: usize, loop_end: usize) -> bool {
    q > 0 && loop_start < (q as usize) && (q as usize) < loop_end
}

/// Slice starts for detected onsets: the loop start, then every pre-rolled
/// onset strictly inside the loop region, in detection order.
pub open spec fn onset_starts(ps: Seq<i32>, pre_roll: usize, loop_start: usize, loop_end: usize) -> Seq<usize>
    decreases ps.len(),
{
    if ps.len() == 0 {
        seq![loop_start]
    } else {
        let rest = onset_starts(ps.drop_last(), pre_roll, loop_start, loop_end);
        let q = pre_rolled(ps.last(), pre_roll);
        if onset_kept(q, loop_start, loop_end) {
            rest.push(q as usize)
        } else {
            rest
        }
    }
}

/// Slices starting at `starts`, each ending where the next starts and the
/// last at `total`, numbered from C3 up.
pub open spec fn layout_from_starts<T, E, L>(starts: Seq<usize>, total: usize, tone: T, envelope: E, levels: L) -> Seq<
    Slice<T, E, L>,
> {
    Seq::new(
        starts.len(),
        |i: int|
            fresh_slice(
                starts[i],
                if i + 1 < starts.len() { starts[i + 1] } else { total },
                capped_note(BASE_NOTE as int, i),
                tone,
                envelope,
                levels,
            ),
    )
}

/// Frames of the decoded slices before slice `i`.
pub open spec fn frames_before(counts: Seq<usize>, i: int) -> int
    decreases i,
{
    if i <= 0 || i > counts.len() {
        0
    } else {
        frames_before(counts, i - 1) + counts[i - 1]
    }
}

proof fn lemma_frames_before_mono(counts: Seq<usize>, i: int, j: int)
    requires
        0 <= i <= j <= counts.len(),
    ensures
        frames_before(counts, i) <= frames_before(counts, j),
    decreases j - i,
{
    if i < j {
        lemma_frames_before_mono(counts, i, j - 1);
    }
}

pub open spec fn min_frame(a: int, total: usize) -> usize {
    if a <= total { a as usize } else { total }
}

/// Slices laid end to end with the given frame counts, cut off at `total`;
/// the last slice always ends at `total`.
pub open spec fn decoded_layout<T, E, L>(counts: Seq<usize>, total: usize, tone: T, envelope: E, levels: L) -> Seq<Slice<T, E, L>> {
    Seq::new(
        counts.len(),
        |i: int|
            fresh_slice(
                min_frame(frames_before(counts, i), total),
                if i + 1 < counts.len() { min_frame(frames_before(counts, i + 1), total) } else { total },
                capped_note(BASE_NOTE as int, i),
                tone,
                envelope,
                levels,
            ),
    )
}

impl<T: Copy, E: Copy, L: Copy> SliceLoop<T, E, L> {
    /// Replace the slices by an even grid within the loop markers: slices of
    /// `division.slice_frames(samples_per_beat)` frames from the loop start,
    /// the last one cut at the loop end (or at the end of the audio, if that
    /// comes first), numbered from C3 up.
    pub fn apply_grid(&mut self, division: GridDivision, samples_per_beat: usize, tone: T, envelope: E, levels: L)
        ensures
            same_frame(*final(self), *old(self)),
            final(self).slices@ == grid_from(
                old(self).loop_start as int,
                grid_end(old(self).loop_end, old(self).total_frames) as int,
                grid_slice_frames(division, samples_per_beat as nat) as int,
                0,
                tone,
                envelope,
                levels,
            ),
            well_formed(final(self).slices@, grid_end(final(self).loop_end, final(self).total_frames)),
            final(self).loop_start < grid_end(final(self).loop_end, final(self).total_frames) ==> {
                &&& final(self).slices.len() > 0
                &&& final(self).slices@[0].start == final(self).loop_start
            },
    {
        let step = division.slice_frames(samples_per_beat);
        let bound = if self.loop_end <= self.total_frames { self.loop_end } else { self.total_frames };
        let first = self.loop_start;
        let ghost full = grid_from(first as int, bound as int, step as int, 0, tone, envelope, levels);
        self.slices.clear();
        let mut start: usize = first;
        let mut note: u8 = BASE_NOTE;
        proof {
            if first > bound {
                assert(grid_from(first as int, bound as int, step as int, 0, tone, envelope, levels)
                    == Seq::<Slice<T, E, L>>::empty());
            }
        }
        while start < bound
            invariant
                same_frame(*self, *old(self)),
                bound == grid_end(self.loop_end, self.total_frames),
                step >= 1,
                first <= start,
                note == capped_note(BASE_NOTE as int, self.slices@.len() as int),
                full == grid_from(first as int, bound as int, step as int, 0, tone, envelope, levels),
                self.slices@ + grid_from(start as int, bound as int, step as int, self.slices@.len() as int, tone, envelope, levels)
                    == full,
            decreases bound - start,
        {
            let end = if bound - start > step { start + step } else { bound };
            let ghost before = self.slices@;
            let ghost rest = grid_from(end as int, bound as int, step as int, before.len() + 1int, tone, envelope, levels);
            assert(grid_from(start as int, bound as int, step as int, before.len() as int, tone, envelope, levels)
                == seq![fresh_slice(start, end, note, tone, envelope, levels)] + rest);
            self.slices.push(Slice::new(start, end, note, tone, envelope, levels));
            assert(self.slices@ + rest == before + (seq![fresh_slice(start, end, note, tone, envelope, levels)] + rest));
            note = if note < TOP_NOTE { note + 1 } else { TOP_NOTE };
            start = end;
        }
        proof {
            assert(self.slices@ + grid_from(start as int, bound as int, step as int, self.slices@.len() as int, tone, envelope, levels) == self.slices@);
            lemma_grid_shape(first as int, bound as int, step as int, 0, tone, envelope, levels);
        }
    }

    /// Replace the slices by one slice per detected onset: the onsets are
    /// pulled `pre_roll` frames earlier, those strictly inside the loop region
    /// are kept, a slice always starts at the loop start, each slice ends
    /// where the next starts and the last at the loop's total length.
    pub fn apply_onsets(&mut self, positions: &Vec<i32>, pre_roll: usize, tone: T, envelope: E, levels: L)
        requires
            positions.len() < MAX_SLICES,
        ensures
            same_frame(*final(self), *old(self)),
            final(self).slices@ == layout_from_starts(
                onset_starts(positions@, pre_roll, old(self).loop_start, old(self).loop_end),
                old(self).total_frames,
                tone,
                envelope,
                levels,
            ),
            contiguous(final(self).slices@, final(self).total_frames),
            final(self).slices.len() > 0,
            final(self).slices@[0].start == final(self).loop_start,
    {
        let ls = self.loop_start;
        let le = self.loop_end;
        let total = self.total_frames;
        let mut starts: Vec<usize> = Vec::new();
        starts.push(ls);
        let mut i: usize = 0;
        while i < positions.len()
            invariant
                0 <= i <= positions.len(),
                starts@ == onset_starts(positions@.take(i as int), pre_roll, ls, le),
                starts@.len() <= i + 1,
            decreases positions.len() - i,
        {
            let q = (positions[i] as usize).saturating_sub(pre_roll) as i32;
            assert(positions@.take(i + 1).drop_last() == positions@.take(i as int));
            if q > 0 {
                let u = q as usize;
                if u > ls && u < le {
                    starts.push(u);
                }
            }
            i = i + 1;
        }
        assert(positions@.take(positions.len() as int) == positions@);
        let ghost st = starts@;
        self.slices.clear();
        let n = starts.len();
        let mut k: usize = 0;
        while k < n
            invariant
                same_frame(*self, *old(self)),
                st == starts@,
                n == st.len(),
                n <= MAX_SLICES,
                0 <= k <= n,
                self.slices@.len() == k,
                forall|j: int|
                    0 <= j < k ==> #[trigger] self.slices@[j] == fresh_slice(
                        st[j],
                        if j + 1 < n { min_frame(st[j + 1] as int, total) } else { min_frame(le as int, total) },
                        capped_note(BASE_NOTE as int, j),
                        tone,
                        envelope,
                        levels,
                    ),
            decreases n - k,
        {
            let raw_end = if k + 1 < n { starts[k + 1] } else { le };
            let end = if raw_end <= total { raw_end } else { total };
            let note: u8 = if k <= 79 { (48 + k) as u8 } else { TOP_NOTE };
            self.slices.push(Slice::new(starts[k], end, note, tone, envelope, levels));
            k = k + 1;
        }
        self.fix_slice_ends();
        assert(self.slices@ =~= layout_from_starts(st, total, tone, envelope, levels));
        proof {
            lemma_onset_first(positions@, pre_roll, ls, le);
        }
    }

    /// The layout of a REX loop whose slices were decoded with the given frame
    /// counts and laid end to end, within a loop of `total_frames` frames.
    pub fn from_decoded_slices(
        frame_counts: &Vec<usize>,
        total_frames: usize,
        sample_rate: u32,
        tone: T,
        envelope: E,
        levels: L,
    ) -> (sl: Self)
        requires
            frame_counts.len() < MAX_SLICES,
            frames_before(frame_counts@, frame_counts.len() as int) <= usize::MAX,
        ensures
            sl.slices@ == decoded_layout(frame_counts@, total_frames, tone, envelope, levels),
            sl.channels == 2,
            sl.sample_rate == sample_rate,
            sl.total_frames == total_frames,
            sl.loop_start == 0,
            sl.loop_end == total_frames,
            contiguous(sl.slices@, total_frames),
    {
        let n = frame_counts.len();
        let mut slices: Vec<Slice<T, E, L>> = Vec::new();
        let mut start: usize = 0;
        let mut i: usize = 0;
        while i < n
            invariant
                n == frame_counts@.len(),
                n < MAX_SLICES,
                frames_before(frame_counts@, n as int) <= usize::MAX,
                0 <= i <= n,
                start as int == frames_before(frame_counts@, i as int),
                slices@.len() == i,
                forall|j: int|
                    0 <= j < i ==> #[trigger] slices@[j] == decoded_layout(
                        frame_counts@,
                        total_frames,
                        tone,
                        envelope,
                        levels,
                    )[j],
            decreases n - i,
        {
            proof {
                lemma_frames_before_mono(frame_counts@, i + 1, n as int);
            }
            let end = start + frame_counts[i];
            let s0 = if start <= total_frames { start } else { total_frames };
            let e0 = if i + 1 < n {
                if end <= total_frames { end } else { total_frames }
            } else {
                total_frames
            };
            let note: u8 = if i <= 79 { (48 + i) as u8 } else { TOP_NOTE };
            slices.push(Slice::new(s0, e0, note, tone, envelope, levels));
            start = end;
            i = i + 1;
        }
        assert(slices@ =~= decoded_layout(frame_counts@, total_frames, tone, envelope, levels));
        SliceLoop {
            channels: 2,
            sample_rate,
            total_frames,
            loop_start: 0,
            loop_end: total_frames,
            slices,
        }
    }
}

proof fn lemma_onset_first(ps: Seq<i32>, pre_roll: usize, ls: usize, le: usize)
    ensures
        onset_starts(ps, pre_roll, ls, le).len() > 0,
        onset_starts(ps, pre_roll, ls, le)[0] == ls,
        onset_starts(ps, pre_roll, ls, le).len() <= ps.len() + 1,
    decreases ps.len(),
{
    if ps.len() > 0 {
        lemma_onset_first(ps.drop_last(), pre_roll, ls, le);
    }
}

/// The frame range of every slice.
pub open spec fn bounds<T, E, L>(s: Seq<Slice<T, E, L>>) -> Seq<(usize, usize)> {
    Seq::new(s.len(), |i: int| (s[i].start, s[i].end))
}

/// No two slices share a note.
pub open spec fn notes_distinct<T, E, L>(s: Seq<Slice<T, E, L>>) -> bool {
    forall|i: int, j: int| 0 <= i < s.len() && 0 <= j < s.len() && i != j ==> s[i].note != s[j].note
}

proof fn lemma_renumber_keeps_bounds<T, E, L>(s: Seq<Slice<T, E, L>>, from: int)
    ensures
        renumber_from(s, from).len() == s.len(),
        bounds(renumber_from(s, from)) == bounds(s),
{
    reveal(renumber_from);
    assert(bounds(renumber_from(s, from)) =~= bounds(s));
}

proof fn lemma_well_formed_from_bounds<T, E, L>(a: Seq<Slice<T, E, L>>, b: Seq<Slice<T, E, L>>, total: usize)
    requires
        bounds(a) == bounds(b),
        well_formed(b, total),
        starts_increasing(b),
    ensures
        well_formed(a, total),
        starts_increasing(a),
{
    assert(a.len() == bounds(a).len());
    assert forall|i: int| 0 <= i < a.len() implies a[i].start == b[i].start && a[i].end == b[i].end by {
        assert(bounds(a)[i] == bounds(b)[i]);
    }
    assert forall|i: int| 0 <= i < a.len() - 1 implies #[trigger] a[i].end == a[i + 1].start by {
        assert(b[i].end == b[i + 1].start);
    }
    assert forall|i: int| 0 <= i < a.len() implies a[i].start < #[trigger] a[i].end by {
        assert(b[i].start < b[i].end);
    }
}

/// The layout right after a split at `frame` inside slice `idx`, before
/// renumbering.
pub open spec fn split_plain<T, E, L>(s: Seq<Slice<T, E, L>>, idx: int, frame: usize, added: Slice<T, E, L>) -> Seq<
    Slice<T, E, L>,
> {
    s.update(idx, with_end(s[idx], frame)).insert(idx + 1, added)
}

proof fn lemma_split_index<T, E, L>(s: Seq<Slice<T, E, L>>, idx: int, frame: usize, added: Slice<T, E, L>, i: int)
    requires
        0 <= idx < s.len(),
        0 <= i < s.len() + 1,
    ensures
        split_plain(s, idx, frame, added).len() == s.len() + 1,
        split_plain(s, idx, frame, added)[i] == (if i < idx {
            s[i]
        } else if i == idx {
            with_end(s[idx], frame)
        } else if i == idx + 1 {
            added
        } else {
            s[i - 1]
        }),
{
}

proof fn lemma_split_contiguous<T, E, L>(s: Seq<Slice<T, E, L>>, idx: int, frame: usize, added: Slice<T, E, L>, total: usize)
    requires
        contiguous(s, total),
        0 <= idx < s.len(),
        added.start == frame,
        added.end == s[idx].end,
    ensures
        contiguous(split_plain(s, idx, frame, added), total),
{
    let ins = split_plain(s, idx, frame, added);
    assert forall|i: int| 0 <= i < ins.len() - 1 implies #[trigger] ins[i].end == ins[i + 1].start by {
        lemma_split_index(s, idx, frame, added, i);
        lemma_split_index(s, idx, frame, added, i + 1);
        if i < idx {
            assert(s[i].end == s[i + 1].start);
        } else if i > idx + 1 {
            assert(s[i - 1].end == s[i].start);
        } else if i == idx + 1 {
            assert(s[idx].end == s[idx + 1].start);
        }
    }
    lemma_split_index(s, idx, frame, added, s.len() as int);
    if idx + 1 < s.len() {
        assert(s.last() == s[s.len() - 1]);
    }
}

proof fn lemma_split_nonempty<T, E, L>(s: Seq<Slice<T, E, L>>, idx: int, frame: usize, added: Slice<T, E, L>)
    requires
        forall|i: int| 0 <= i < s.len() ==> s[i].start < #[trigger] s[i].end,
        0 <= idx < s.len(),
        s[idx].start < frame < s[idx].end,
        added.start == frame,
        added.end == s[idx].end,
    ensures
        forall|i: int|
            0 <= i < split_plain(s, idx, frame, added).len() ==> split_plain(s, idx, frame, added)[i].start < #[trigger] split_plain(s, idx, frame, added)[i].end,
{
    let ins = split_plain(s, idx, frame, added);
    assert forall|i: int| 0 <= i < ins.len() implies ins[i].start < #[trigger] ins[i].end by {
        lemma_split_index(s, idx, frame, added, i);
        if i < idx {
            assert(s[i].start < s[i].end);
        } else if i > idx + 1 {
            assert(s[i - 1].start < s[i - 1].end);
        }
    }
}

proof fn lemma_split_increasing<T, E, L>(s: Seq<Slice<T, E, L>>, idx: int, frame: usize, added: Slice<T, E, L>, total: usize)
    requires
        starts_increasing(s),
        contiguous(s, total),
        0 <= idx < s.len(),
        s[idx].start < frame < s[idx].end,
        added.start == frame,
    ensures
        starts_increasing(split_plain(s, idx, frame, added)),
{
    let ins = split_plain(s, idx, frame, added);
    assert forall|i: int, j: int| 0 <= i < j < ins.len() implies ins[i].start < ins[j].start by {
        lemma_split_index(s, idx, frame, added, i);
        lemma_split_index(s, idx, frame, added, j);
        let si = if i <= idx { i } else { i - 1 };
        let sj = if j <= idx { j } else { j - 1 };
        if j == idx + 1 {
            if i < idx {
                assert(s[i].start < s[idx].start);
            }
        } else if i == idx + 1 {
            assert(s[idx].end == s[idx + 1].start);
            if sj > idx + 1 {
                assert(s[idx + 1].start < s[sj].start);
            }
        } else if j > idx + 1 && i == idx {
            assert(s[idx].start < s[sj].start);
        } else {
            assert(s[si].start < s[sj].start);
        }
    }
}

proof fn lemma_renumber_layout<T, E, L>(s: Seq<Slice<T, E, L>>, from: int, total: usize)
    requires
        well_formed(s, total),
        starts_increasing(s),
    ensures
        well_formed(renumber_from(s, from), total),
        starts_increasing(renumber_from(s, from)),
        renumber_from(s, from).len() == s.len(),
        s.len() > 0 ==> renumber_from(s, from)[0].start == s[0].start,
{
    lemma_renumber_keeps_bounds(s, from);
    lemma_well_formed_from_bounds(renumber_from(s, from), s, total);
    if s.len() > 0 {
        assert(bounds(renumber_from(s, from))[0] == bounds(s)[0]);
    }
}

proof fn lemma_split_layout<T, E, L>(s: Seq<Slice<T, E, L>>, idx: int, frame: usize, total: usize, tone: T, envelope: E, levels: L)
    requires
        well_formed(s, total),
        starts_increasing(s),
        0 <= idx < s.len(),
        s[idx].start < frame < s[idx].end,
    ensures
        well_formed(split_at(s, idx, frame, tone, envelope, levels), total),
        starts_increasing(split_at(s, idx, frame, tone, envelope, levels)),
        split_at(s, idx, frame, tone, envelope, levels).len() == s.len() + 1,
        split_at(s, idx, frame, tone, envelope, levels)[0].start == s[0].start,
{
    let added = fresh_slice(
        frame,
        s[idx].end,
        if note_succ(s[idx].note) <= 127 { note_succ(s[idx].note) } else { 127 },
        tone,
        envelope,
        levels,
    );
    let ins = split_plain(s, idx, frame, added);
    lemma_split_contiguous(s, idx, frame, added, total);
    lemma_split_nonempty(s, idx, frame, added);
    lemma_split_increasing(s, idx, frame, added, total);
    lemma_split_index(s, idx, frame, added, 0);
    lemma_renumber_layout(ins, idx + 1, total);
    assert(split_at(s, idx, frame, tone, envelope, levels) == renumber_from(ins, idx + 1));
}

/// Splitting a slice keeps a well-formed layout well formed with increasing
/// starts, leaves its first start where it was, and adds at most one slice.
pub proof fn insert_keeps_layout<T, E, L>(s: Seq<Slice<T, E, L>>, frame: usize, total: usize, tone: T, envelope: E, levels: L)
    requires
        well_formed(s, total),
        starts_increasing(s),
    ensures
        well_formed(inserted(s, frame, total, tone, envelope, levels), total),
        starts_increasing(inserted(s, frame, total, tone, envelope, levels)),
        s.len() <= inserted(s, frame, total, tone, envelope, levels).len() <= s.len() + 1,
        s.len() > 0 ==> inserted(s, frame, total, tone, envelope, levels)[0].start == s[0].start,
{
    if !(frame == 0 || frame >= total) {
        lemma_first_containing(s, frame);
        if let Some(idx) = first_containing(s, frame) {
            lemma_split_layout(s, idx, frame, total, tone, envelope, levels);
        }
    }
}

/// The shape of a layout after removing slice `idx` and merging, before
/// ends are recomputed.
proof fn lemma_merge_shape<T, E, L>(s: Seq<Slice<T, E, L>>, idx: int, total: usize)
    requires
        well_formed(s, total),
        starts_increasing(s),
        s.len() > 1,
        0 <= idx < s.len(),
    ensures
        ({
            let r = s.remove(idx);
            let merged = if idx > 0 {
                r.update(idx - 1, with_end(r[idx - 1], s[idx].end))
            } else {
                r.update(0, with_start(r[0], 0))
            };
            &&& starts_increasing(merged)
            &&& merged.len() == s.len() - 1
            &&& merged.last().start < total
        }),
{
    let r = s.remove(idx);
    let merged = if idx > 0 {
        r.update(idx - 1, with_end(r[idx - 1], s[idx].end))
    } else {
        r.update(0, with_start(r[0], 0))
    };
    assert forall|i: int| 0 <= i < merged.len() implies #[trigger] merged[i].start == (if i == 0 && idx == 0 {
        0
    } else if i < idx {
        s[i].start
    } else {
        s[i + 1].start
    }) by {}
    assert forall|i: int, j: int| 0 <= i < j < merged.len() implies merged[i].start < merged[j].start by {
        assert(merged[i].start == merged[i].start);
        assert(merged[j].start == merged[j].start);
        let si = if i < idx { i } else { i + 1 };
        let sj = if j < idx { j } else { j + 1 };
        assert(s[si].start < s[sj].start);
        if i == 0 && idx == 0 {
            assert(s[0].start < s[si].start || si == 0);
        }
    }
    let last = s.len() - 1;
    assert(s[last].start < s[last].end);
    assert(s.last().end == total);
    let ml = merged.len() - 1;
    assert(merged[ml].start == merged[ml].start);
    if ml + 1 < s.len() - 1 || ml >= idx {
        if ml >= idx {
            assert(merged[ml].start == s[ml + 1].start || (ml == 0 && idx == 0));
        } else {
            assert(s[ml].start < s[last].start);
        }
    } else {
        assert(s[ml].start < s[last].start);
    }
    assert(merged.last() == merged[ml]);
}

/// Removing a slice from a well-formed layout of two or more slices leaves a
/// well-formed layout with increasing starts and one slice fewer.
pub proof fn remove_keeps_layout<T, E, L>(s: Seq<Slice<T, E, L>>, idx: int, total: usize)
    requires
        well_formed(s, total),
        starts_increasing(s),
    ensures
        well_formed(removed(s, idx, total), total),
        starts_increasing(removed(s, idx, total)),
        removed(s, idx, total).len() == if s.len() <= 1 || idx < 0 || idx >= s.len() {
            s.len()
        } else {
            (s.len() - 1) as nat
        },
{
    if !(s.len() <= 1 || idx < 0 || idx >= s.len()) {
        let r = s.remove(idx);
        let merged = if idx > 0 {
            r.update(idx - 1, with_end(r[idx - 1], s[idx].end))
        } else {
            r.update(0, with_start(r[0], 0))
        };
        lemma_merge_shape(s, idx, total);
        let fixed = fix_ends(merged, total);
        lemma_fixed_shape(merged, total);
        let from = if idx < r.len() - 1 { idx } else { r.len() - 1 };
        lemma_renumber_keeps_bounds(fixed, from);
        lemma_well_formed_from_bounds(renumber_from(fixed, from), fixed, total);
    }
}

/// Recomputing ends of a layout whose starts increase and whose last slice
/// starts before `total` gives a well-formed layout.
proof fn lemma_fixed_shape<T, E, L>(m: Seq<Slice<T, E, L>>, total: usize)
    requires
        starts_increasing(m),
        m.len() > 0,
        m.last().start < total,
    ensures
        well_formed(fix_ends(m, total), total),
        starts_increasing(fix_ends(m, total)),
{
    let f = fix_ends(m, total);
    assert forall|i: int| 0 <= i < f.len() implies f[i].start < #[trigger] f[i].end by {
        if i + 1 < f.len() {
            assert(m[i].start < m[i + 1].start);
        } else {
            assert(m.last() == m[i]);
        }
    }
    assert forall|i: int, j: int| 0 <= i < j < f.len() implies f[i].start < f[j].start by {
        assert(m[i].start < m[j].start);
    }
    assert(f.last() == f[f.len() - 1]);
}

/// Moving a marker within its allowed range keeps a well-formed layout well
/// formed with increasing starts.
pub proof fn move_keeps_layout<T, E, L>(s: Seq<Slice<T, E, L>>, idx: int, frame: usize, total: usize)
    requires
        well_formed(s, total),
        starts_increasing(s),
        can_move(s, idx, total),
    ensures
        well_formed(moved(s, idx, frame, total), total),
        starts_increasing(moved(s, idx, frame, total)),
        moved(s, idx, frame, total).len() == s.len(),
{
    if idx != 0 {
        let m = moved(s, idx, frame, total);
        let next = next_start(s, idx, total);
        assert(s[idx].end == next) by {
            if idx + 1 < s.len() {
                assert(s[idx].end == s[idx + 1].start);
            }
        }
        assert forall|i: int| 0 <= i < m.len() - 1 implies #[trigger] m[i].end == m[i + 1].start by {
            assert(s[i].end == s[i + 1].start);
        }
        assert forall|i: int| 0 <= i < m.len() implies m[i].start < #[trigger] m[i].end by {
            assert(s[i].start < s[i].end);
        }
        assert forall|i: int, j: int| 0 <= i < j < m.len() implies m[i].start < m[j].start by {
            if j == idx && i < idx - 1 {
                assert(s[i].start < s[idx - 1].start);
            } else if i == idx && j > idx + 1 {
                assert(s[idx + 1].start < s[j].start);
            } else if i == idx - 1 && j > idx {
                assert(s[idx - 1].start < s[j].start);
            } else if i != idx && j != idx {
                assert(s[i].start < s[j].start);
            }
        }
    }
}

/// Removing the slice that a split created gives back the frame ranges the
/// layout had before the split.
pub proof fn remove_undoes_insert<T, E, L>(s: Seq<Slice<T, E, L>>, frame: usize, total: usize, tone: T, envelope: E, levels: L)
    requires
        well_formed(s, total),
        starts_increasing(s),
        0 < frame < total,
        first_containing(s, frame) is Some,
    ensures
        bounds(removed(inserted(s, frame, total, tone, envelope, levels), first_containing(s, frame)->0 + 1, total))
            == bounds(s),
{
    lemma_first_containing(s, frame);
    let idx = first_containing(s, frame)->0;
    let ins = inserted(s, frame, total, tone, envelope, levels);
    let added = fresh_slice(
        frame,
        s[idx].end,
        if note_succ(s[idx].note) <= 127 { note_succ(s[idx].note) } else { 127 },
        tone,
        envelope,
        levels,
    );
    let plain = split_plain(s, idx, frame, added);
    lemma_renumber_keeps_bounds(plain, idx + 1);
    assert forall|i: int| 0 <= i < plain.len() implies #[trigger] plain[i] == plain[i] by {
        lemma_split_index(s, idx, frame, added, i);
    }
    lemma_split_index(s, idx, frame, added, idx);
    lemma_split_index(s, idx, frame, added, idx + 1);
    assert(ins == renumber_from(plain, idx + 1));
    lemma_removed_split(s, idx, ins, plain, total);
}

proof fn lemma_removed_split<T, E, L>(
    s: Seq<Slice<T, E, L>>,
    idx: int,
    ins: Seq<Slice<T, E, L>>,
    plain: Seq<Slice<T, E, L>>,
    total: usize,
)
    requires
        well_formed(s, total),
        0 <= idx < s.len(),
        plain.len() == s.len() + 1,
        bounds(ins) == bounds(plain),
        forall|i: int| 0 <= i < idx ==> #[trigger] plain[i].start == s[i].start,
        plain[idx].start == s[idx].start,
        plain[idx + 1].end == s[idx].end,
        forall|i: int| idx + 1 < i < plain.len() ==> #[trigger] plain[i].start == s[i - 1].start,
    ensures
        bounds(removed(ins, idx + 1, total)) == bounds(s),
{
    assert(ins.len() == bounds(ins).len());
    assert forall|i: int| 0 <= i < ins.len() implies ins[i].start == plain[i].start && ins[i].end == plain[i].end by {
        assert(bounds(ins)[i] == bounds(plain)[i]);
    }
    let r = ins.remove(idx + 1);
    let merged = r.update(idx, with_end(r[idx], ins[idx + 1].end));
    let fixed = fix_ends(merged, total);
    let from = if idx + 1 < r.len() - 1 { idx + 1 } else { r.len() - 1 };
    lemma_renumber_keeps_bounds(fixed, from);
    assert(removed(ins, idx + 1, total) == renumber_from(fixed, from));
    assert forall|i: int| 0 <= i < s.len() implies #[trigger] merged[i].start == s[i].start by {
        if i > idx {
            assert(plain[i + 1].start == s[i].start);
        }
    }
    assert forall|i: int| 0 <= i < s.len() implies fixed[i].start == s[i].start && fixed[i].end == s[i].end by {
        assert(merged[i].start == s[i].start);
        if i + 1 < s.len() {
            assert(merged[i + 1].start == s[i + 1].start);
            assert(s[i].end == s[i + 1].start);
        } else {
            assert(s.last() == s[i]);
        }
    }
    assert(bounds(fixed) =~= bounds(s));
}

/// Re-noting a slice keeps the notes of a layout pairwise distinct.
pub proof fn renote_keeps_notes_distinct<T, E, L>(s: Seq<Slice<T, E, L>>, idx: int, note: u8)
    requires
        notes_distinct(s),
        0 <= idx < s.len(),
    ensures
        notes_distinct(renoted(s, idx, note)),
{
    let r = renoted(s, idx, note);
    assert forall|i: int, j: int| 0 <= i < r.len() && 0 <= j < r.len() && i != j implies r[i].note != r[j].note by {
        assert(s[i].note != s[j].note);
        if i != idx && j != idx {
        } else if i == idx {
            assert(s[j].note != s[idx].note);
        } else {
            assert(s[i].note != s[idx].note);
        }
    }
}


/// The notes of a layout, slice by slice.
pub open spec fn notes_of<T, E, L>(s: Seq<Slice<T, E, L>>) -> Seq<u8> {
    s.map_values(|x: Slice<T, E, L>| x.note)
}

/// Slices on the main beats: every fourth slice, from the first.
pub open spec fn on_main_beat(i: int) -> bool {
    i % 4 == 0
}

/// The layout after the shuffle fill swaps the notes of slices `i1` and
/// `i2`; nothing changes when they are the same slice, or when beat locking
/// is on and either lies on a main beat.
pub open spec fn notes_swapped<T, E, L>(s: Seq<Slice<T, E, L>>, i1: int, i2: int, lock_main_beats: bool) -> Seq<
    Slice<T, E, L>,
> {
    if i1 == i2 || (lock_main_beats && (on_main_beat(i1) || on_main_beat(i2))) {
        s
    } else {
        s.update(i1, with_note(s[i1], s[i2].note)).update(i2, with_note(s[i2], s[i1].note))
    }
}

/// The shuffle fill's note swaps only move notes between slices: every slice
/// keeps its range and settings, the layout keeps the same notes overall,
/// and with beat locking the main beats keep theirs.
pub proof fn swap_keeps_notes<T, E, L>(s: Seq<Slice<T, E, L>>, i1: int, i2: int, lock_main_beats: bool)
    requires
        0 <= i1 < s.len(),
        0 <= i2 < s.len(),
    ensures
        notes_swapped(s, i1, i2, lock_main_beats).len() == s.len(),
        forall|k: int|
            0 <= k < s.len() ==> #[trigger] notes_swapped(s, i1, i2, lock_main_beats)[k] == with_note(
                s[k],
                notes_swapped(s, i1, i2, lock_main_beats)[k].note,
            ),
        notes_of(notes_swapped(s, i1, i2, lock_main_beats)).to_multiset() == notes_of(s).to_multiset(),
        lock_main_beats ==> forall|k: int|
            0 <= k < s.len() && on_main_beat(k) ==> #[trigger] notes_swapped(s, i1, i2, lock_main_beats)[k].note
                == s[k].note,
{
    broadcast use vstd::seq_lib::group_to_multiset_ensures;
    broadcast use vstd::multiset::group_multiset_axioms;

    let r = notes_swapped(s, i1, i2, lock_main_beats);
    let ns = notes_of(s);
    if !(i1 == i2 || (lock_main_beats && (on_main_beat(i1) || on_main_beat(i2)))) {
        let a = s[i1].note;
        let b = s[i2].note;
        let mid = ns.update(i1, b);
        assert(notes_of(r) =~= mid.update(i2, a));
        assert(mid[i2] == b);
        assert(mid.to_multiset() == ns.to_multiset().insert(b).remove(a));
        assert(mid.update(i2, a).to_multiset() == mid.to_multiset().insert(a).remove(b));
        assert(ns.to_multiset().count(a) > 0);
        assert(ns.to_multiset().insert(b).remove(a).insert(a).remove(b) =~= ns.to_multiset());
    }
}

/// The smaller of `a` and the highest MIDI note.
pub open spec fn at_most_top(a: int) -> int {
    if a <= 127 {
        a
    } else {
        127
    }
}

/// Renumbering from slice `from` leaves every slice before `from` as it was
/// and changes nothing but notes from there on: the slice at `from` gets the
/// note after its predecessor's (C3 when it is the first slice), and each
/// later slice the note after the one before it, never above the highest
/// MIDI note.
pub proof fn renumber_keeps_earlier_slices<T, E, L>(s: Seq<Slice<T, E, L>>, from: int)
    requires
        0 <= from,
    ensures
        renumber_from(s, from).len() == s.len(),
        forall|i: int| 0 <= i < s.len() && i < from ==> #[trigger] renumber_from(s, from)[i] == s[i],
        forall|i: int|
            0 <= i < s.len() ==> #[trigger] renumber_from(s, from)[i] == (Slice {
                note: renumber_from(s, from)[i].note,
                ..s[i]
            }),
        0 < from < s.len() ==> renumber_from(s, from)[from].note as int == at_most_top(s[from - 1].note + 1),
        from == 0 && s.len() > 0 ==> renumber_from(s, from)[0].note == 48,
        forall|i: int|
            from <= i && i + 1 < s.len() ==> #[trigger] renumber_from(s, from)[i + 1].note as int == at_most_top(
                renumber_from(s, from)[i].note + 1,
            ),
{
    reveal(renumber_from);
}

proof fn lemma_split_keeps_notes<T, E, L>(s: Seq<Slice<T, E, L>>, idx: int, frame: usize, tone: T, envelope: E, levels: L)
    requires
        0 <= idx < s.len(),
    ensures
        split_at(s, idx, frame, tone, envelope, levels).len() == s.len() + 1,
        forall|i: int| 0 <= i <= idx ==> #[trigger] split_at(s, idx, frame, tone, envelope, levels)[i].note == s[i].note,
{
    let cut = s.update(idx, with_end(s[idx], frame));
    let added = fresh_slice(
        frame,
        s[idx].end,
        if note_succ(s[idx].note) <= 127 { note_succ(s[idx].note) } else { 127 },
        tone,
        envelope,
        levels,
    );
    let ins = cut.insert(idx + 1, added);
    renumber_keeps_earlier_slices(ins, idx + 1);
    assert forall|i: int| 0 <= i <= idx implies #[trigger] split_at(s, idx, frame, tone, envelope, levels)[i].note
        == s[i].note by {
        assert(ins[i] == cut[i]);
    }
}

/// Splitting a slice leaves the notes of the slices that start before the
/// split frame as they were, the split slice's own note included.
pub proof fn insert_keeps_earlier_notes<T, E, L>(
    s: Seq<Slice<T, E, L>>,
    frame: usize,
    total: usize,
    tone: T,
    envelope: E,
    levels: L,
)
    requires
        well_formed(s, total),
        starts_increasing(s),
    ensures
        inserted(s, frame, total, tone, envelope, levels).len() >= s.len(),
        forall|i: int|
            0 <= i < s.len() && s[i].start < frame ==> #[trigger] inserted(s, frame, total, tone, envelope, levels)[i].note
                == s[i].note,
{
    if !(frame == 0 || frame >= total) {
        lemma_first_containing(s, frame);
        if let Some(idx) = first_containing(s, frame) {
            lemma_split_keeps_notes(s, idx, frame, tone, envelope, levels);
            assert forall|i: int| 0 <= i < s.len() && s[i].start < frame implies i <= idx by {
                if i > idx {
                    assert(s[idx].end == s[idx + 1].start);
                    if i > idx + 1 {
                        assert(s[idx + 1].start < s[i].start);
                    }
                }
            }
        }
    }
}

/// Removing slice `idx` leaves the notes of the slices before it as they
/// were; only when the last slice goes does the slice before it, which takes
/// over its range, get the note after its own predecessor's.
pub proof fn remove_keeps_earlier_notes<T, E, L>(s: Seq<Slice<T, E, L>>, idx: int, total: usize)
    ensures
        forall|i: int|
            0 <= i < idx && i + 2 < s.len() ==> #[trigger] removed(s, idx, total)[i].note == s[i].note,
{
    if !(s.len() <= 1 || idx < 0 || idx >= s.len()) {
        let r = s.remove(idx);
        let merged = if idx > 0 {
            r.update(idx - 1, with_end(r[idx - 1], s[idx].end))
        } else {
            r.update(0, with_start(r[0], 0))
        };
        let from = if idx < r.len() - 1 { idx } else { r.len() - 1 };
        let fixed = fix_ends(merged, total);
        renumber_keeps_earlier_slices(fixed, from);
        assert forall|i: int| 0 <= i < idx && i + 2 < s.len() implies #[trigger] removed(s, idx, total)[i].note
            == s[i].note by {
            assert(fixed[i].note == merged[i].note);
            assert(r[i] == s[i]);
        }
    }
}

/// The loop markers are kept at least this many frames apart when dragged.
pub const LOOP_MARKER_GAP: usize = 100;

/// Index of the first slice whose range `[start, end)` holds `frame`.
pub open spec fn slice_holding<T, E, L>(s: Seq<Slice<T, E, L>>, frame: usize) -> Option<int>
    decreases s.len(),
{
    if s.len() == 0 {
        None
    } else {
        match slice_holding(s.drop_last(), frame) {
            Some(i) => Some(i),
            None => if s.last().start <= frame < s.last().end {
                Some(s.len() - 1)
            } else {
                None
            },
        }
    }
}

proof fn lemma_slice_holding<T, E, L>(s: Seq<Slice<T, E, L>>, frame: usize)
    ensures
        match slice_holding(s, frame) {
            Some(i) => 0 <= i < s.len() && s[i].start <= frame < s[i].end && forall|j: int|
                0 <= j < i ==> !(#[trigger] s[j].start <= frame < s[j].end),
            None => forall|j: int| 0 <= j < s.len() ==> !(#[trigger] s[j].start <= frame < s[j].end),
        },
    decreases s.len(),
{
    if s.len() > 0 {
        lemma_slice_holding(s.drop_last(), frame);
        assert forall|j: int| 0 <= j < s.len() - 1 implies s.drop_last()[j] == s[j] by {}
    }
}

impl<T: Copy, E: Copy, L: Copy> Slice<T, E, L> {
    /// Fade-in length, in frames, when its handle is dragged to `frame`: from
    /// the slice start, at most half the slice.
    pub fn fade_in_drag_frames(&self, frame: usize) -> (n: usize)
        ensures
            n == (if sat_sub(frame as int, self.start as int) <= sat_sub(self.end as int, self.start as int) / 2 {
                sat_sub(frame as int, self.start as int)
            } else {
                sat_sub(self.end as int, self.start as int) / 2
            }),
    {
        let f = frame.saturating_sub(self.start);
        let max = self.frame_count() / 2;
        if f <= max { f } else { max }
    }

    /// Fade-out length, in frames, when its handle is dragged to `frame`: up
    /// to the slice end, at most half the slice.
    pub fn fade_out_drag_frames(&self, frame: usize) -> (n: usize)
        ensures
            n == (if sat_sub(self.end as int, frame as int) <= sat_sub(self.end as int, self.start as int) / 2 {
                sat_sub(self.end as int, frame as int)
            } else {
                sat_sub(self.end as int, self.start as int) / 2
            }),
    {
        let f = self.end.saturating_sub(frame);
        let max = self.frame_count() / 2;
        if f <= max { f } else { max }
    }
}

impl<T: Copy, E: Copy, L: Copy> SliceLoop<T, E, L> {
    /// The slice a click at `frame` selects: the first whose range holds it.
    pub fn slice_at_frame(&self, frame: usize) -> (r: Option<usize>)
        ensures
            match r {
                Some(i) => slice_holding(self.slices@, frame) == Some(i as int),
                None => slice_holding(self.slices@, frame) is None,
            },
    {
        proof {
            lemma_slice_holding(self.slices@, frame);
        }
        let mut i: usize = 0;
        while i < self.slices.len()
            invariant
                0 <= i <= self.slices@.len(),
                forall|j: int| 0 <= j < i ==> !(#[trigger] self.slices@[j].start <= frame < self.slices@[j].end),
            decreases self.slices.len() - i,
        {
            let s = self.slices[i];
            if s.start <= frame && frame < s.end {
                proof {
                    lemma_slice_holding(self.slices@, frame);
                    match slice_holding(self.slices@, frame) {
                        Some(k) => {
                            if k < i {
                                assert(!(self.slices@[k].start <= frame < self.slices@[k].end));
                            }
                            if i < k {
                                assert(!(self.slices@[i as int].start <= frame < self.slices@[i as int].end));
                            }
                        },
                        None => {
                            assert(!(self.slices@[i as int].start <= frame < self.slices@[i as int].end));
                        },
                    }
                }
                return Some(i);
            }
            i = i + 1;
        }
        proof {
            if let Some(k) = slice_holding(self.slices@, frame) {
                assert(!(self.slices@[k].start <= frame < self.slices@[k].end));
            }
        }
        None
    }

    /// The shuffle fill's swap of the notes of slices `i1` and `i2` (see
    /// `notes_swapped`).
    pub fn shuffle_swap_notes(&mut self, i1: usize, i2: usize, lock_main_beats: bool)
        requires
            i1 < old(self).slices.len(),
            i2 < old(self).slices.len(),
        ensures
            same_frame(*final(self), *old(self)),
            final(self).slices@ == notes_swapped(old(self).slices@, i1 as int, i2 as int, lock_main_beats),
    {
        if lock_main_beats && (i1 % 4 == 0 || i2 % 4 == 0) {
            return;
        }
        if i1 != i2 {
            let note1 = self.slices[i1].note;
            let note2 = self.slices[i2].note;
            let mut a = self.slices[i1];
            a.note = note2;
            self.slices.set(i1, a);
            let mut b = self.slices[i2];
            b.note = note1;
            self.slices.set(i2, b);
        }
    }

    /// Drag the loop end marker to `frame`: it stays `LOOP_MARKER_GAP`
    /// frames after the loop start, and within the loop.
    pub fn drag_loop_end(&mut self, frame: usize)
        requires
            old(self).loop_start + LOOP_MARKER_GAP <= usize::MAX,
        ensures
            final(self).loop_end == (if frame >= old(self).loop_start + LOOP_MARKER_GAP {
                if frame <= old(self).total_frames { frame as int } else { old(self).total_frames as int }
            } else {
                if old(self).loop_start + LOOP_MARKER_GAP <= old(self).total_frames {
                    old(self).loop_start + LOOP_MARKER_GAP
                } else {
                    old(self).total_frames as int
                }
            }),
            final(self).loop_end <= final(self).total_frames,
            old(self).loop_start + LOOP_MARKER_GAP <= old(self).total_frames ==> final(self).loop_end
                >= final(self).loop_start + LOOP_MARKER_GAP,
            final(self).loop_start == old(self).loop_start,
            final(self).slices@ == old(self).slices@,
            final(self).total_frames == old(self).total_frames,
            final(self).sample_rate == old(self).sample_rate,
            final(self).channels == old(self).channels,
    {
        let lo = self.loop_start + LOOP_MARKER_GAP;
        let e = if frame >= lo { frame } else { lo };
        self.loop_end = if e <= self.total_frames { e } else { self.total_frames };
    }

    /// Drag the loop start marker to `frame`: it stays `LOOP_MARKER_GAP`
    /// frames before the loop end (or at 0).
    pub fn drag_loop_start(&mut self, frame: usize)
        ensures
            final(self).loop_start == (if frame as int <= sat_sub(old(self).loop_end as int, LOOP_MARKER_GAP as int) {
                frame as int
            } else {
                sat_sub(old(self).loop_end as int, LOOP_MARKER_GAP as int)
            }),
            final(self).loop_start <= final(self).loop_end,
            final(self).loop_end == old(self).loop_end,
            final(self).slices@ == old(self).slices@,
            final(self).total_frames == old(self).total_frames,
            final(self).sample_rate == old(self).sample_rate,
            final(self).channels == old(self).channels,
    {
        let hi = self.loop_end.saturating_sub(LOOP_MARKER_GAP);
        self.loop_start = if frame <= hi { frame } else { hi };
    }

    /// Clear all slices: one slice over the whole audio, on C3.
    pub fn clear_slices(&mut self, tone: T, envelope: E, levels: L)
        ensures
            same_frame(*final(self), *old(self)),
            final(self).slices@ == seq![fresh_slice(0, old(self).total_frames, BASE_NOTE, tone, envelope, levels)],
    {
        self.slices.clear();
        let total = self.total_frames;
        self.slices.push(Slice::new(0, total, BASE_NOTE, tone, envelope, levels));
        assert(self.slices@ =~= seq![fresh_slice(0, total, BASE_NOTE, tone, envelope, levels)]);
    }

    /// Loop the whole audio again.
    pub fn reset_loop_region(&mut self)
        ensures
            final(self).loop_start == 0,
            final(self).loop_end == old(self).total_frames,
            final(self).slices@ == old(self).slices@,
            final(self).total_frames == old(self).total_frames,
            final(self).sample_rate == old(self).sample_rate,
            final(self).channels == old(self).channels,
    {
        self.loop_start = 0;
        self.loop_end = self.total_frames;
    }
}

impl<T: Copy, E: Copy, L: Copy> SliceLoop<T, E, L> {
    /// Take over a stored loop region, limited to the loop's length; a stored
    /// end of 0 means the region runs to the end of the loop.
    pub fn restore_loop_region(&mut self, loop_start: usize, loop_end: usize)
        ensures
            final(self).loop_start == (if loop_start <= old(self).total_frames { loop_start } else { old(self).total_frames }),
            final(self).loop_end == (if loop_end == 0 || loop_end > old(self).total_frames {
                old(self).total_frames
            } else {
                loop_end
            }),
            final(self).slices@ == old(self).slices@,
            final(self).total_frames == old(self).total_frames,
            final(self).sample_rate == old(self).sample_rate,
            final(self).channels == old(self).channels,
    {
        let total = self.total_frames;
        self.loop_start = if loop_start <= total { loop_start } else { total };
        self.loop_end = if loop_end > 0 {
            if loop_end <= total { loop_end } else { total }
        } else {
            total
        };
    }
}

} // verus!
