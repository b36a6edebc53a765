//! The sampler's two transports besides the voices: the preview that plays
//! the loop region round and round, and the audition of a file picked in the
//! browser, played once. Each audio block asks them which frames to play.

use vstd::prelude::*;
use vstd::arithmetic::div_mod::{lemma_add_mod_noop, lemma_add_mod_noop_right, lemma_small_mod, lemma_mod_self_0, lemma_mod_bound};

verus! {

/// Where the preview plays: the loop region, cut at the end of the audio.
pub open spec fn region_end(loop_end: usize, total_frames: usize) -> int {
    if loop_end <= total_frames {
        loop_end as int
    } else {
        total_frames as int
    }
}

/// The playhead the preview starts a block from: its own position when that
/// lies in the region `[start, end)`, else the region's start.
pub open spec fn preview_entry(ph: usize, start: int, end: int) -> int {
    if start <= ph < end {
        ph as int
    } else {
        start
    }
}

/// The preview position `k` frames after `p`, wrapping round the region of
/// `len` frames that begins at `start`.
pub open spec fn preview_after(p: int, start: int, len: int, k: int) -> int {
    start + (p - start + k) % len
}

/// An audition buffer of interleaved stereo samples and its read position in
/// frames.
pub open spec fn audition_frames<S>(audio: Seq<S>) -> int {
    (audio.len() / 2) as int
}

/// Frames an audition plays in a block of `frames`: up to the end of its
/// buffer.
pub open spec fn audition_read<S>(audio: Seq<S>, ph: usize, frames: usize) -> int {
    if ph < audition_frames(audio) {
        if frames <= audition_frames(audio) - ph {
            frames as int
        } else {
            audition_frames(audio) - ph
        }
    } else {
        0
    }
}

pub struct Transport<S> {
    /// The preview's playhead, while the preview plays.
    pub preview_playhead: Option<usize>,
    /// The audition's samples and read position, while an audition plays.
    pub audition_buffer: Option<(Vec<S>, usize)>,
}

impl<S> Transport<S> {
    /// Nothing plays.
    pub fn new() -> (t: Self)
        ensures
            t.preview_playhead is None,
            t.audition_buffer is None,
    {
        Transport { preview_playhead: None, audition_buffer: None }
    }

    /// Start the preview from the top; it replaces any audition.
    pub fn play_preview(&mut self)
        ensures
            final(self).preview_playhead == Some(0usize),
            final(self).audition_buffer is None,
    {
        self.preview_playhead = Some(0);
        self.audition_buffer = None;
    }

    pub fn stop_preview(&mut self)
        ensures
            final(self).preview_playhead is None,
            final(self).audition_buffer == old(self).audition_buffer,
    {
        self.preview_playhead = None;
    }

    pub fn is_previewing(&self) -> (r: bool)
        ensures
            r == self.preview_playhead is Some,
    {
        self.preview_playhead.is_some()
    }

    /// Play `pcm` (interleaved stereo) from its start; it replaces the preview.
    pub fn play_audition(&mut self, pcm: Vec<S>)
        ensures
            final(self).preview_playhead is None,
            final(self).audition_buffer matches Some((a, ph)) && a@ == pcm@ && ph == 0,
    {
        self.preview_playhead = None;
        self.audition_buffer = Some((pcm, 0));
    }

    pub fn stop_audition(&mut self)
        ensures
            final(self).audition_buffer is None,
            final(self).preview_playhead == old(self).preview_playhead,
    {
        self.audition_buffer = None;
    }

    pub fn is_auditioning(&self) -> (r: bool)
        ensures
            r == self.audition_buffer is Some,
    {
        self.audition_buffer.is_some()
    }

    /// Stop both the preview and the audition, as an incoming note does.
    pub fn stop(&mut self)
        ensures
            final(self).preview_playhead is None,
            final(self).audition_buffer is None,
    {
        self.preview_playhead = None;
        self.audition_buffer = None;
    }

    /// Follow the host's transport from one block to the next: when it
    /// starts playing, the preview and the audition stop.
    pub fn follow_host(&mut self, was_playing: bool, is_playing: bool)
        ensures
            is_playing && !was_playing ==> final(self).preview_playhead is None && final(self).audition_buffer is None,
            !(is_playing && !was_playing) ==> *final(self) == *old(self),
    {
        if is_playing && !was_playing {
            self.stop();
        }
    }

    /// The loop frames the preview plays in a block of `frames` frames, one
    /// per frame of the block, put in `read` (which is cleared first, so that
    /// its storage is reused from block to block), and the preview's new
    /// playhead. The preview plays the region from `loop_start` to the loop
    /// end (cut at `total_frames`), wrapping round to its start; a playhead
    /// outside the region starts over at its start; with an empty region the
    /// preview stops and plays nothing.
    pub fn advance_preview(
        &mut self,
        frames: usize,
        loop_start: usize,
        loop_end: usize,
        total_frames: usize,
        read: &mut Vec<usize>,
    )
        ensures
            final(self).audition_buffer == old(self).audition_buffer,
            match old(self).preview_playhead {
                None => final(read)@.len() == 0 && final(self).preview_playhead is None,
                Some(ph) => {
                    let start = loop_start as int;
                    let end = region_end(loop_end, total_frames);
                    if end > start {
                        let p0 = preview_entry(ph, start, end);
                        &&& final(read)@.len() == frames
                        &&& forall|k: int|
                            0 <= k < frames ==> #[trigger] final(read)@[k] == preview_after(p0, start, end - start, k)
                        &&& final(self).preview_playhead == Some(
                            preview_after(p0, start, end - start, frames as int) as usize,
                        )
                    } else {
                        final(read)@.len() == 0 && final(self).preview_playhead is None
                    }
                },
            },
            final(self).preview_playhead matches Some(p) ==> loop_start <= p < region_end(loop_end, total_frames),
            forall|k: int|
                0 <= k < final(read)@.len() ==> loop_start <= #[trigger] final(read)@[k] < region_end(
                    loop_end,
                    total_frames,
                ),
    {
        read.clear();
        match self.preview_playhead {
            None => {},
            Some(ph0) => {
                let start = loop_start;
                let end = if loop_end <= total_frames { loop_end } else { total_frames };
                if end <= start {
                    self.preview_playhead = None;
                    return;
                }
                let ghost len = end - start;
                let mut ph = if start <= ph0 && ph0 < end { ph0 } else { start };
                let ghost p0 = ph as int;
                proof {
                    lemma_small_mod((p0 - start) as nat, len as nat);
                }
                let mut f: usize = 0;
                while f < frames
                    invariant
                        start < end,
                        len == end - start,
                        start <= p0 < end,
                        0 <= f <= frames,
                        ph == preview_after(p0, start as int, len, f as int),
                        read@.len() == f,
                        forall|k: int| 0 <= k < f ==> #[trigger] read@[k] == preview_after(p0, start as int, len, k),
                    decreases frames - f,
                {
                    read.push(ph);
                    proof {
                        let x = p0 - start + f;
                        lemma_add_mod_noop(x, 1, len);
                        lemma_mod_bound(x, len);
                        if len > 1 {
                            lemma_small_mod(1, len as nat);
                        } else {
                            lemma_mod_self_0(1);
                        }
                        if x % len + 1 < len {
                            lemma_small_mod((x % len + 1) as nat, len as nat);
                        } else {
                            lemma_mod_self_0(len);
                        }
                    }
                    ph = ph + 1;
                    if ph >= end {
                        ph = start;
                    }
                    f = f + 1;
                }
                self.preview_playhead = Some(ph);
                proof {
                    assert forall|k: int| 0 <= k < read@.len() implies loop_start <= #[trigger] read@[k] < end by {
                        lemma_mod_bound(p0 - start + k, len);
                    }
                }
            },
        }
    }

    /// The buffer frames the audition plays in a block of `frames` frames,
    /// put in `read` (cleared first): consecutive frames from its read
    /// position up to the end of its buffer. An audition that runs out within
    /// the block ends, and its buffer is handed back so that the block can
    /// still be played from it; otherwise its read position moves on by the
    /// block.
    pub fn advance_audition(&mut self, frames: usize, read: &mut Vec<usize>) -> (ended: Option<Vec<S>>)
        ensures
            final(self).preview_playhead == old(self).preview_playhead,
            match old(self).audition_buffer {
                None => final(read)@.len() == 0 && final(self).audition_buffer is None && ended is None,
                Some((audio, ph)) => {
                    let n = audition_read(audio@, ph, frames);
                    &&& final(read)@.len() == n
                    &&& forall|k: int| 0 <= k < n ==> #[trigger] final(read)@[k] == ph + k
                    &&& if n < frames {
                        &&& final(self).audition_buffer is None
                        &&& ended matches Some(a) && a@ == audio@
                    } else {
                        &&& final(self).audition_buffer matches Some((a, p)) && a@ == audio@ && p == ph + frames
                        &&& ended is None
                    }
                },
            },
    {
        read.clear();
        match self.audition_buffer.take() {
            None => None,
            Some((audio, ph0)) => {
                let total = audio.len() / 2;
                let mut ph = ph0;
                let mut f: usize = 0;
                let mut ran_out = false;
                while f < frames
                    invariant_except_break
                        ph0 <= ph,
                        ph - ph0 == f,
                        f <= frames,
                        total == audition_frames(audio@),
                        read@.len() == f,
                        forall|k: int| 0 <= k < f ==> #[trigger] read@[k] == ph0 + k,
                        f > 0 ==> ph <= total,
                        !ran_out,
                    ensures
                        ph0 <= ph,
                        total == audition_frames(audio@),
                        read@.len() == ph - ph0,
                        forall|k: int| 0 <= k < read@.len() ==> #[trigger] read@[k] == ph0 + k,
                        ran_out ==> ph >= total && read@.len() < frames && (read@.len() > 0 ==> ph == total),
                        !ran_out ==> read@.len() == frames && (frames > 0 ==> ph <= total),
                    decreases frames - f,
                {
                    if ph < total {
                        read.push(ph);
                        ph = ph + 1;
                        f = f + 1;
                    } else {
                        ran_out = true;
                        break;
                    }
                }
                if ran_out {
                    Some(audio)
                } else {
                    self.audition_buffer = Some((audio, ph));
                    None
                }
            },
        }
    }
}

/// The preview runs on seamlessly from one audio block to the next: playing
/// `a` frames and then `b` frames ends where playing `a + b` frames does.
pub proof fn preview_blocks_compose(p: int, start: int, len: int, a: nat, b: nat)
    requires
        len > 0,
        start <= p < start + len,
    ensures
        preview_after(preview_after(p, start, len, a as int), start, len, b as int) == preview_after(
            p,
            start,
            len,
            (a + b) as int,
        ),
{
    lemma_add_mod_noop_right(b as int, p - start + a, len);
}

} // verus!
