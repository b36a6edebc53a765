//! Zero-crossing search on the loop's audio, used to snap and nudge slice
//! markers. The search looks only at the sign of the first channel's
//! samples, which the caller supplies as a polarity per interleaved sample.

use vstd::prelude::*;
use crate::layout::{SliceLoop, sat_sub};

verus! {

/// Sign of a sample; `Unordered` for a sample that compares neither below,
/// above nor equal to zero.
#[derive(Debug, Clone, Copy, PartialEq, Eq, Structural)]
pub enum Polarity {
    Negative,
    Zero,
    Positive,
    Unordered,
}

/// How far, in frames, a search looks from its starting frame.
pub const SEARCH_WINDOW: usize = 10000;

/// The signal crosses zero between the previous sample `prev` and `cur`: it
/// goes from below zero to zero or above, or from above zero to zero or below.
pub open spec fn crosses(cur: Polarity, prev: Polarity) -> bool {
    ((cur == Polarity::Zero || cur == Polarity::Positive) && prev == Polarity::Negative) || ((cur == Polarity::Zero
        || cur == Polarity::Negative) && prev == Polarity::Positive)
}

/// Channel stride of the interleaved samples (at least 1).
pub open spec fn stride(channels: usize) -> int {
    if channels >= 1 {
        channels as int
    } else {
        1
    }
}

/// The first channel crosses zero going into frame `f`.
pub open spec fn crossing_at(p: Seq<Polarity>, ch: int, f: int) -> bool {
    &&& f >= 1
    &&& f * ch < p.len()
    &&& (f - 1) * ch < p.len()
    &&& crosses(p[f * ch], p[(f - 1) * ch])
}

/// Levels are compared as the bit patterns of non-negative 32-bit floats,
/// which order as the floats do. The search only takes a level below this
/// bound, the pattern of the largest finite float.
pub const LEVEL_BOUND: u32 = 0x7f7f_ffff;

pub open spec fn distance(a: int, b: int) -> int {
    if a >= b {
        a - b
    } else {
        b - a
    }
}

/// Frame `f` lies in the search window `[lo, hi)` and has both a polarity
/// (of its first channel) and a level to look at.
pub open spec fn snap_candidate(p: Seq<Polarity>, levels: Seq<u32>, ch: int, lo: int, hi: int, f: int) -> bool {
    lo <= f < hi && f * ch < p.len() && f < levels.len()
}

/// `r` is where a marker at `frame` snaps to within the window `[lo, hi)`:
/// the nearest frame into which the first channel crosses zero (the earlier
/// one of two equally near); when there is none, the first frame of lowest
/// level below `LEVEL_BOUND`; when there is none either, `frame` itself.
pub open spec fn snapped(p: Seq<Polarity>, levels: Seq<u32>, ch: int, lo: int, hi: int, frame: int, r: int) -> bool {
    if exists|f: int| #[trigger] snap_candidate(p, levels, ch, lo, hi, f) && crossing_at(p, ch, f) {
        &&& snap_candidate(p, levels, ch, lo, hi, r)
        &&& crossing_at(p, ch, r)
        &&& forall|g: int|
            #[trigger] snap_candidate(p, levels, ch, lo, hi, g) && crossing_at(p, ch, g) ==> distance(r, frame)
                < distance(g, frame) || (distance(r, frame) == distance(g, frame) && r <= g)
    } else if exists|f: int| #[trigger] snap_candidate(p, levels, ch, lo, hi, f) && levels[f] < LEVEL_BOUND {
        &&& snap_candidate(p, levels, ch, lo, hi, r)
        &&& levels[r] < LEVEL_BOUND
        &&& forall|g: int| #[trigger] snap_candidate(p, levels, ch, lo, hi, g) ==> levels[r] <= levels[g]
        &&& forall|g: int| #[trigger] snap_candidate(p, levels, ch, lo, hi, g) && g < r ==> levels[r] < levels[g]
    } else {
        r == frame
    }
}

fn crosses_exec(cur: Polarity, prev: Polarity) -> (r: bool)
    ensures
        r == crosses(cur, prev),
{
    match (cur, prev) {
        (Polarity::Zero, Polarity::Negative) => true,
        (Polarity::Positive, Polarity::Negative) => true,
        (Polarity::Zero, Polarity::Positive) => true,
        (Polarity::Negative, Polarity::Positive) => true,
        _ => false,
    }
}

proof fn lemma_mul_le(a: int, b: int, c: int)
    requires
        0 <= a <= b,
        0 <= c,
    ensures
        a * c <= b * c,
{
    assert(a * c <= b * c) by (nonlinear_arith)
        requires
            0 <= a <= b,
            0 <= c,
    ;
}

proof fn lemma_mul_pred(f: int, ch: int)
    ensures
        (f - 1) * ch == f * ch - ch,
{
    assert((f - 1) * ch == f * ch - ch) by (nonlinear_arith);
}

impl<T: Copy, E: Copy, L: Copy> SliceLoop<T, E, L> {
    fn crossing_into(&self, polarity: &Vec<Polarity>, ch: usize, f: usize, bound: usize) -> (r: bool)
        requires
            1 <= f <= bound,
            ch >= 1,
            bound * ch <= usize::MAX,
        ensures
            r == crossing_at(polarity@, ch as int, f as int),
    {
        proof {
            lemma_mul_le(f as int, bound as int, ch as int);
            lemma_mul_le((f - 1) as int, f as int, ch as int);
            lemma_mul_pred(f as int, ch as int);
        }
        let idx = f * ch;
        let prev = idx - ch;
        idx < polarity.len() && prev < polarity.len() && crosses_exec(polarity[idx], polarity[prev])
    }

    /// The nearest frame at or before `start_frame - 1`, and at most
    /// `SEARCH_WINDOW` frames back (but not before frame 1), into which the
    /// first channel crosses zero; `start_frame - 1` when there is none, and 0
    /// when there is no audio or `start_frame` is at most 1.
    pub fn find_zero_crossing_left(&self, polarity: &Vec<Polarity>, start_frame: usize) -> (r: usize)
        requires
            start_frame > 1 ==> (start_frame - 1) * stride(self.channels) <= usize::MAX,
        ensures
            (polarity@.len() == 0 || start_frame <= 1) ==> r == 0,
            !(polarity@.len() == 0 || start_frame <= 1) ==> {
                let lo = if start_frame > SEARCH_WINDOW + 1 { start_frame - SEARCH_WINDOW } else { 1 };
                let ch = stride(self.channels);
                if exists|f: int| lo <= f < start_frame && #[trigger] crossing_at(polarity@, ch, f) {
                    &&& lo <= r < start_frame
                    &&& crossing_at(polarity@, ch, r as int)
                    &&& forall|g: int| r < g < start_frame ==> !#[trigger] crossing_at(polarity@, ch, g)
                } else {
                    r == start_frame - 1
                }
            },
    {
        if polarity.len() == 0 || start_frame <= 1 {
            return 0;
        }
        let ch = if self.channels >= 1 { self.channels } else { 1 };
        let lo = if start_frame > SEARCH_WINDOW + 1 { start_frame - SEARCH_WINDOW } else { 1 };
        let mut f = start_frame;
        while f > lo
            invariant
                1 <= lo <= f <= start_frame,
                polarity@.len() > 0,
                start_frame > 1,
                lo == (if start_frame > SEARCH_WINDOW + 1 { start_frame - SEARCH_WINDOW } else { 1 }),
                ch == stride(self.channels),
                (start_frame - 1) * ch <= usize::MAX,
                forall|g: int| f <= g < start_frame ==> !#[trigger] crossing_at(polarity@, ch as int, g),
            decreases f,
        {
            f = f - 1;
            if self.crossing_into(polarity, ch, f, start_frame - 1) {
                return f;
            }
        }
        start_frame - 1
    }

    /// The nearest frame after `start_frame`, and before both
    /// `start_frame + SEARCH_WINDOW` and the end of the loop, into which the
    /// first channel crosses zero; `start_frame + 1` (at most the loop length)
    /// when there is none, and the loop length when there is no audio or
    /// `start_frame` is at or past the last frame.
    pub fn find_zero_crossing_right(&self, polarity: &Vec<Polarity>, start_frame: usize) -> (r: usize)
        requires
            start_frame < sat_sub(self.total_frames as int, 1) ==> start_frame + SEARCH_WINDOW <= usize::MAX,
            start_frame < sat_sub(self.total_frames as int, 1) ==> (self.total_frames - 1) * stride(self.channels)
                <= usize::MAX,
        ensures
            (polarity@.len() == 0 || start_frame >= sat_sub(self.total_frames as int, 1)) ==> r == self.total_frames,
            !(polarity@.len() == 0 || start_frame >= sat_sub(self.total_frames as int, 1)) ==> {
                let hi = if start_frame + SEARCH_WINDOW <= self.total_frames {
                    start_frame + SEARCH_WINDOW
                } else {
                    self.total_frames as int
                };
                let ch = stride(self.channels);
                if exists|f: int| start_frame < f < hi && #[trigger] crossing_at(polarity@, ch, f) {
                    &&& start_frame < r < hi
                    &&& crossing_at(polarity@, ch, r as int)
                    &&& forall|g: int| start_frame < g < r ==> !#[trigger] crossing_at(polarity@, ch, g)
                } else {
                    r == start_frame + 1
                }
            },
    {
        let total = self.total_frames;
        if polarity.len() == 0 || start_frame >= total.saturating_sub(1) {
            return total;
        }
        let ch = if self.channels >= 1 { self.channels } else { 1 };
        let hi = if start_frame + SEARCH_WINDOW <= total { start_frame + SEARCH_WINDOW } else { total };
        let mut f = start_frame + 1;
        while f < hi
            invariant
                start_frame + 1 <= f,
                start_frame + 1 < total,
                total == self.total_frames,
                polarity@.len() > 0,
                hi as int == (if start_frame + SEARCH_WINDOW <= total { start_frame + SEARCH_WINDOW } else { total as int }),
                f <= hi || f == start_frame + 1,
                hi <= total,
                ch == stride(self.channels),
                (total - 1) * ch <= usize::MAX,
                forall|g: int| start_frame < g < f ==> !#[trigger] crossing_at(polarity@, ch as int, g),
            decreases hi - f,
        {
            if self.crossing_into(polarity, ch, f, total - 1) {
                return f;
            }
            f = f + 1;
        }
        start_frame + 1
    }

    /// Where a slice marker at `frame` snaps to: the search looks at most
    /// `max_search_samples` frames to either side, within the loop, at the
    /// first channel's `polarity` per interleaved sample and at one `levels`
    /// value per frame (see `snapped`). A frame with no audio or past the
    /// loop's end stays where it is.
    pub fn snap_to_zero_crossing(
        &self,
        polarity: &Vec<Polarity>,
        levels: &Vec<u32>,
        frame: usize,
        max_search_samples: usize,
    ) -> (r: usize)
        requires
            frame < self.total_frames ==> frame + max_search_samples <= usize::MAX,
            self.total_frames * stride(self.channels) <= usize::MAX,
        ensures
            (polarity@.len() == 0 || frame >= self.total_frames) ==> r == frame,
            !(polarity@.len() == 0 || frame >= self.total_frames) ==> snapped(
                polarity@,
                levels@,
                stride(self.channels),
                sat_sub(frame as int, max_search_samples as int),
                if frame + max_search_samples <= self.total_frames {
                    frame + max_search_samples
                } else {
                    self.total_frames as int
                },
                frame as int,
                r as int,
            ),
    {
        let total = self.total_frames;
        if polarity.len() == 0 || frame >= total {
            return frame;
        }
        let ch = if self.channels >= 1 { self.channels } else { 1 };
        let start = frame.saturating_sub(max_search_samples);
        let end = if frame + max_search_samples <= total { frame + max_search_samples } else { total };
        let ghost lo = start as int;
        let ghost hi = end as int;
        let ghost p = polarity@;
        let ghost lv = levels@;
        let mut best = frame;
        let mut found = false;
        let mut min_dist: usize = 0;
        let mut min_level = LEVEL_BOUND;
        let mut f = start;
        while f < end
            invariant
                ch == stride(self.channels),
                total == self.total_frames,
                frame < total,
                total * ch <= usize::MAX,
                lo == start,
                hi == end,
                end <= total,
                p == polarity@,
                lv == levels@,
                start <= f <= end,
                found ==> {
                    &&& best < f
                    &&& snap_candidate(p, lv, ch as int, lo, hi, best as int)
                    &&& crossing_at(p, ch as int, best as int)
                    &&& min_dist == distance(best as int, frame as int)
                    &&& forall|g: int|
                        start <= g < f && #[trigger] snap_candidate(p, lv, ch as int, lo, hi, g) && crossing_at(
                            p,
                            ch as int,
                            g,
                        ) ==> distance(best as int, frame as int) < distance(g, frame as int) || (distance(
                            best as int,
                            frame as int,
                        ) == distance(g, frame as int) && best <= g)
                },
                !found ==> {
                    &&& forall|g: int|
                        start <= g < f && #[trigger] snap_candidate(p, lv, ch as int, lo, hi, g) ==> !crossing_at(
                            p,
                            ch as int,
                            g,
                        )
                    &&& forall|g: int|
                        start <= g < f && #[trigger] snap_candidate(p, lv, ch as int, lo, hi, g) ==> min_level
                            <= lv[g]
                    &&& min_level <= LEVEL_BOUND
                    &&& min_level < LEVEL_BOUND ==> {
                        &&& best < f
                        &&& snap_candidate(p, lv, ch as int, lo, hi, best as int)
                        &&& lv[best as int] == min_level
                        &&& forall|g: int|
                            start <= g < best && #[trigger] snap_candidate(p, lv, ch as int, lo, hi, g) ==> min_level
                                < lv[g]
                    }
                    &&& min_level == LEVEL_BOUND ==> best == frame
                },
            decreases end - f,
        {
            proof {
                assert(f * ch <= total * ch) by (nonlinear_arith)
                    requires
                        f <= total,
                        ch >= 1,
                ;
            }
            if f * ch < polarity.len() && f < levels.len() {
                proof {
                    assert((total - 1) * ch <= total * ch) by (nonlinear_arith)
                        requires
                            total >= 1,
                            ch >= 1,
                    ;
                    assert(snap_candidate(p, lv, ch as int, lo, hi, f as int));
                }
                let crossing = f > 0 && self.crossing_into(polarity, ch, f, total - 1);
                assert(crossing == crossing_at(p, ch as int, f as int));
                let dist = if f >= frame { f - frame } else { frame - f };
                if crossing {
                    let ghost old_best = best as int;
                    let ghost old_found = found;
                    if !found || dist < min_dist {
                        min_dist = dist;
                        best = f;
                    }
                    found = true;
                    proof {
                        assert forall|g: int|
                            start <= g < f + 1 && #[trigger] snap_candidate(p, lv, ch as int, lo, hi, g)
                                && crossing_at(p, ch as int, g) implies distance(best as int, frame as int)
                            < distance(g, frame as int) || (distance(best as int, frame as int) == distance(
                            g,
                            frame as int,
                        ) && best <= g) by {
                            if g < f && old_found {
                                assert(distance(old_best, frame as int) < distance(g, frame as int) || (distance(
                                    old_best,
                                    frame as int,
                                ) == distance(g, frame as int) && old_best <= g));
                            }
                        }
                    }
                } else if !found && levels[f] < min_level {
                    min_level = levels[f];
                    best = f;
                }
            }
            proof {
                if f == 0 {
                    assert(!crossing_at(p, ch as int, 0));
                }
            }
            f = f + 1;
        }
        best
    }
}

} // verus!
