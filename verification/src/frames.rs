//! Rearranging sample buffers between interleaved stereo and separate
//! channels. The sample type is left open: the buffers hold audio samples,
//! but only their positions matter here.

use vstd::prelude::*;

verus! {

/// Stereo samples appended for one decoded block: a mono block has each
/// sample doubled into left and right; a block of two or more channels keeps
/// the first two channels of each of its `frames` frames; a block without
/// channels adds nothing.
pub open spec fn stereo_block<T>(samples: Seq<T>, channels: nat, frames: nat) -> Seq<T> {
    if channels == 1 {
        Seq::new(2 * samples.len(), |i: int| samples[i / 2])
    } else if channels >= 2 {
        Seq::new(2 * frames, |i: int| samples[(i / 2) * channels + i % 2])
    } else {
        Seq::empty()
    }
}

/// Append a decoded block of `channels` interleaved channels to an
/// interleaved stereo buffer (see `stereo_block`).
pub fn append_stereo<T: Copy>(audio: &mut Vec<T>, samples: &[T], channels: usize, frames: usize)
    requires
        channels >= 2 ==> frames * channels <= samples@.len(),
    ensures
        final(audio)@ == old(audio)@ + stereo_block(samples@, channels as nat, frames as nat),
{
    if channels == 1 {
        let mut i: usize = 0;
        while i < samples.len()
            invariant
                0 <= i <= samples@.len(),
                audio@ == old(audio)@ + stereo_block(samples@.take(i as int), 1, 0),
            decreases samples.len() - i,
        {
            audio.push(samples[i]);
            audio.push(samples[i]);
            assert(audio@ =~= old(audio)@ + stereo_block(samples@.take(i + 1), 1, 0));
            i = i + 1;
        }
        assert(samples@.take(samples.len() as int) =~= samples@);
    } else if channels >= 2 {
        let slen = samples.len();
        let mut f: usize = 0;
        while f < frames
            invariant
                channels >= 2,
                slen == samples@.len(),
                frames * channels <= samples@.len(),
                0 <= f <= frames,
                audio@ == old(audio)@ + stereo_block(samples@, channels as nat, f as nat),
            decreases frames - f,
        {
            proof {
                assert((f + 1) * channels <= frames * channels) by (nonlinear_arith)
                    requires
                        f + 1 <= frames,
                ;
                assert((f + 1) * channels == f * channels + channels) by (nonlinear_arith);
            }
            let base = f * channels;
            audio.push(samples[base]);
            audio.push(samples[base + 1]);
            proof {
                let next = stereo_block(samples@, channels as nat, (f + 1) as nat);
                let cur = stereo_block(samples@, channels as nat, f as nat);
                assert forall|i: int| 0 <= i < 2 * f + 2 implies #[trigger] next[i] == (if i < 2 * f {
                    cur[i]
                } else if i == 2 * f {
                    samples@[base as int]
                } else {
                    samples@[base + 1]
                }) by {
                    if i >= 2 * f {
                        assert(i / 2 == f);
                    }
                }
            }
            assert(audio@ =~= old(audio)@ + stereo_block(samples@, channels as nat, (f + 1) as nat));
            f = f + 1;
        }
    }
}

/// A decoded block keeps its channels in place: for a block of two or more
/// channels, stereo frame `f` is the block's channel 0 on the left and its
/// channel 1 on the right; a mono block puts each sample on both sides; and
/// a stereo block is appended exactly as it came.
pub proof fn stereo_block_keeps_channels<T>(samples: Seq<T>, channels: nat, frames: nat)
    requires
        channels >= 2 ==> frames * channels <= samples.len(),
    ensures
        channels >= 2 ==> stereo_block(samples, channels, frames).len() == 2 * frames,
        channels >= 2 ==> forall|f: int|
            0 <= f < frames ==> #[trigger] stereo_block(samples, channels, frames)[2 * f] == samples[f * channels]
                && stereo_block(samples, channels, frames)[2 * f + 1] == samples[f * channels + 1],
        channels == 1 ==> stereo_block(samples, channels, frames).len() == 2 * samples.len(),
        channels == 1 ==> forall|f: int|
            0 <= f < samples.len() ==> #[trigger] stereo_block(samples, channels, frames)[2 * f] == samples[f]
                && stereo_block(samples, channels, frames)[2 * f + 1] == samples[f],
        channels == 2 && 2 * frames == samples.len() ==> stereo_block(samples, channels, frames) == samples,
{
    let b = stereo_block(samples, channels, frames);
    if channels >= 2 {
        assert forall|f: int| 0 <= f < frames implies #[trigger] b[2 * f] == samples[f * channels] && b[2 * f
            + 1] == samples[f * channels + 1] by {
            assert((2 * f) / 2 == f);
            assert((2 * f + 1) / 2 == f);
            assert((2 * f) % 2 == 0);
            assert((2 * f + 1) % 2 == 1);
            assert(f * channels + 1 < samples.len()) by (nonlinear_arith)
                requires
                    0 <= f < frames,
                    channels >= 2,
                    frames * channels <= samples.len(),
            ;
        }
        if channels == 2 && 2 * frames == samples.len() {
            assert forall|i: int| 0 <= i < b.len() implies b[i] == samples[i] by {
                assert((i / 2) * 2 + i % 2 == i);
            }
            assert(b =~= samples);
        }
    } else if channels == 1 {
        assert forall|f: int| 0 <= f < samples.len() implies #[trigger] b[2 * f] == samples[f] && b[2 * f + 1]
            == samples[f] by {
            assert((2 * f) / 2 == f);
            assert((2 * f + 1) / 2 == f);
        }
    }
}

/// Left and right samples of frame `i` interleaved, for each of the first `n` frames.
pub open spec fn interleaved<T>(left: Seq<T>, right: Seq<T>, n: nat) -> Seq<T> {
    Seq::new(2 * n, |i: int| if i % 2 == 0 { left[i / 2] } else { right[i / 2] })
}

/// Interleave the first `n` frames of two channels into a stereo buffer.
pub fn interleave<T: Copy>(left: &[T], right: &[T], n: usize) -> (out: Vec<T>)
    requires
        n <= left@.len(),
        n <= right@.len(),
    ensures
        out@ == interleaved(left@, right@, n as nat),
{
    let mut out: Vec<T> = Vec::new();
    let mut i: usize = 0;
    while i < n
        invariant
            n <= left@.len(),
            n <= right@.len(),
            0 <= i <= n,
            out@ == interleaved(left@, right@, i as nat),
        decreases n - i,
    {
        out.push(left[i]);
        out.push(right[i]);
        assert(out@ =~= interleaved(left@, right@, (i + 1) as nat));
        i = i + 1;
    }
    out
}

/// The two channels of the first frames of an interleaved stereo buffer: as
/// many frames as the buffer holds whole, but no more than `total_frames`.
pub open spec fn channel_split<T>(audio: Seq<T>, total_frames: nat) -> (Seq<T>, Seq<T>) {
    let n = if audio.len() / 2 <= total_frames { audio.len() / 2 } else { total_frames };
    (Seq::new(n, |i: int| audio[2 * i]), Seq::new(n, |i: int| audio[2 * i + 1]))
}

/// Split an interleaved stereo buffer into its channels (see `channel_split`).
pub fn deinterleave<T: Copy>(audio: &Vec<T>, total_frames: usize) -> (r: (Vec<T>, Vec<T>))
    ensures
        (r.0@, r.1@) == channel_split(audio@, total_frames as nat),
{
    let len = audio.len();
    let half = len / 2;
    let n = if half <= total_frames { half } else { total_frames };
    let mut left: Vec<T> = Vec::new();
    let mut right: Vec<T> = Vec::new();
    let mut i: usize = 0;
    while i < n
        invariant
            n <= len / 2,
            len == audio@.len(),
            0 <= i <= n,
            left@ == Seq::new(i as nat, |k: int| audio@[2 * k]),
            right@ == Seq::new(i as nat, |k: int| audio@[2 * k + 1]),
        decreases n - i,
    {
        left.push(audio[2 * i]);
        right.push(audio[2 * i + 1]);
        assert(left@ =~= Seq::new((i + 1) as nat, |k: int| audio@[2 * k]));
        assert(right@ =~= Seq::new((i + 1) as nat, |k: int| audio@[2 * k + 1]));
        i = i + 1;
    }
    assert(left@ =~= channel_split(audio@, total_frames as nat).0);
    assert(right@ =~= channel_split(audio@, total_frames as nat).1);
    (left, right)
}

/// Interleaving the channels of a stereo buffer of whole frames gives the
/// buffer back.
pub proof fn interleave_undoes_split<T>(audio: Seq<T>)
    requires
        audio.len() % 2 == 0,
    ensures
        interleaved(
            channel_split(audio, audio.len() / 2).0,
            channel_split(audio, audio.len() / 2).1,
            audio.len() / 2,
        ) == audio,
{
    let (l, r) = channel_split(audio, audio.len() / 2);
    let m = interleaved(l, r, audio.len() / 2);
    assert forall|i: int| 0 <= i < audio.len() implies #[trigger] m[i] == audio[i] by {
        if i % 2 == 0 {
            assert(2 * (i / 2) == i);
        } else {
            assert(2 * (i / 2) + 1 == i);
        }
    }
    assert(m =~= audio);
}

} // verus!
