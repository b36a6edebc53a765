//! RIFF/WAVE byte layout: plain 16-bit stereo PCM files for the slices of a
//! multisample archive, and the whole loop with `cue `, `acid` and `LIST`
//! chunks that mark the slice points for other audio software.

use vstd::prelude::*;
use vstd::string::*;
use crate::layout::{Slice, SliceLoop};

verus! {

pub open spec fn le16(x: u16) -> Seq<u8> {
    seq![(x % 256) as u8, (x / 256) as u8]
}

pub open spec fn le32(x: u32) -> Seq<u8> {
    seq![(x % 256) as u8, ((x / 256) % 256) as u8, ((x / 65536) % 256) as u8, (x / 16777216) as u8]
}

pub open spec fn tag(a: u8, b: u8, c: u8, d: u8) -> Seq<u8> {
    seq![a, b, c, d]
}

pub open spec fn riff_tag() -> Seq<u8> { tag(82, 73, 70, 70) }

pub open spec fn wave_tag() -> Seq<u8> { tag(87, 65, 86, 69) }

pub open spec fn fmt_tag() -> Seq<u8> { tag(102, 109, 116, 32) }

pub open spec fn data_tag() -> Seq<u8> { tag(100, 97, 116, 97) }

pub open spec fn cue_tag() -> Seq<u8> { tag(99, 117, 101, 32) }

pub open spec fn acid_tag() -> Seq<u8> { tag(97, 99, 105, 100) }

pub open spec fn list_tag() -> Seq<u8> { tag(76, 73, 83, 84) }

pub open spec fn adtl_tag() -> Seq<u8> { tag(97, 100, 116, 108) }

pub open spec fn labl_tag() -> Seq<u8> { tag(108, 97, 98, 108) }

/// Little-endian bytes of the samples.
pub open spec fn sample_bytes(pcm: Seq<i16>) -> Seq<u8>
    decreases pcm.len(),
{
    if pcm.len() == 0 {
        Seq::empty()
    } else {
        sample_bytes(pcm.drop_last()) + le16(pcm.last() as u16)
    }
}

/// Size field of the data chunk: the byte length of the samples, kept to 32 bits.
pub open spec fn data_size(samples: nat) -> u32 {
    ((samples % 0x8000_0000) * 2) as u32
}

/// The `fmt ` chunk of 16-bit stereo PCM at `sample_rate`.
pub open spec fn fmt_chunk(sample_rate: u32) -> Seq<u8> {
    fmt_tag() + le32(16) + le16(1) + le16(2) + le32(sample_rate) + le32((sample_rate * 4) as u32) + le16(4)
        + le16(16)
}

/// A plain 16-bit stereo PCM WAV file holding `pcm`.
pub open spec fn simple_wav(pcm: Seq<i16>, sample_rate: u32) -> Seq<u8> {
    riff_tag() + le32((36 + data_size(pcm.len())) as u32) + wave_tag() + fmt_chunk(sample_rate) + data_tag() + le32(
        data_size(pcm.len()),
    ) + sample_bytes(pcm)
}

/// Arithmetic of a simple WAV file stays within 32 bits.
pub open spec fn simple_wav_fits(samples: nat, sample_rate: u32) -> bool {
    &&& sample_rate * 4 <= u32::MAX
    &&& 36 + data_size(samples) <= u32::MAX
}

fn push_bytes(out: &mut Vec<u8>, bs: &[u8])
    ensures
        final(out)@ == old(out)@ + bs@,
{
    let mut i: usize = 0;
    while i < bs.len()
        invariant
            0 <= i <= bs.len(),
            out@ == old(out)@ + bs@.take(i as int),
        decreases bs.len() - i,
    {
        out.push(bs[i]);
        assert(out@ =~= old(out)@ + bs@.take(i + 1));
        i = i + 1;
    }
    assert(bs@.take(bs.len() as int) == bs@);
}

fn push_le16(out: &mut Vec<u8>, x: u16)
    ensures
        final(out)@ == old(out)@ + le16(x),
{
    out.push((x % 256) as u8);
    out.push((x / 256) as u8);
    assert(out@ =~= old(out)@ + le16(x));
}

fn push_le32(out: &mut Vec<u8>, x: u32)
    ensures
        final(out)@ == old(out)@ + le32(x),
{
    out.push((x % 256) as u8);
    out.push(((x / 256) % 256) as u8);
    out.push(((x / 65536) % 256) as u8);
    out.push((x / 16777216) as u8);
    assert(out@ =~= old(out)@ + le32(x));
}

fn push_samples(out: &mut Vec<u8>, pcm: &[i16])
    ensures
        final(out)@ == old(out)@ + sample_bytes(pcm@),
{
    let mut i: usize = 0;
    while i < pcm.len()
        invariant
            0 <= i <= pcm.len(),
            out@ == old(out)@ + sample_bytes(pcm@.take(i as int)),
        decreases pcm.len() - i,
    {
        let ghost before = out@;
        push_le16(out, pcm[i] as u16);
        assert(pcm@.take(i + 1).drop_last() == pcm@.take(i as int));
        assert(out@ =~= old(out)@ + sample_bytes(pcm@.take(i + 1)));
        i = i + 1;
    }
    assert(pcm@.take(pcm.len() as int) == pcm@);
}

fn data_size_exec(samples: usize) -> (n: u32)
    ensures
        n == data_size(samples as nat),
{
    ((samples % 0x8000_0000) * 2) as u32
}

fn push_fmt_chunk(out: &mut Vec<u8>, sample_rate: u32)
    requires
        sample_rate * 4 <= u32::MAX,
    ensures
        final(out)@ == old(out)@ + fmt_chunk(sample_rate),
{
    push_bytes(out, &[102, 109, 116, 32]);
    push_le32(out, 16);
    push_le16(out, 1);
    push_le16(out, 2);
    push_le32(out, sample_rate);
    push_le32(out, sample_rate * 4);
    push_le16(out, 4);
    push_le16(out, 16);
    assert(out@ =~= old(out)@ + fmt_chunk(sample_rate));
}

/// Append a 16-bit stereo PCM WAV file of `pcm` at `sample_rate` to `out`;
/// an empty sample buffer is refused and `out` is left alone.
pub fn write_simple_wav(out: &mut Vec<u8>, pcm: &[i16], sample_rate: u32) -> (r: Result<(), String>)
    requires
        pcm@.len() > 0 ==> simple_wav_fits(pcm@.len(), sample_rate),
    ensures
        pcm@.len() == 0 <==> r is Err,
        r matches Err(e) ==> e@ == "Cannot write WAV file with 0 samples."@ && final(out)@ == old(out)@,
        r is Ok ==> final(out)@ == old(out)@ + simple_wav(pcm@, sample_rate),
{
    if pcm.len() == 0 {
        return Err(String::from_str("Cannot write WAV file with 0 samples."));
    }
    let data_len = data_size_exec(pcm.len());
    push_bytes(out, &[82, 73, 70, 70]);
    push_le32(out, 36 + data_len);
    push_bytes(out, &[87, 65, 86, 69]);
    push_fmt_chunk(out, sample_rate);
    push_bytes(out, &[100, 97, 116, 97]);
    push_le32(out, data_len);
    push_samples(out, pcm);
    assert(out@ =~= old(out)@ + simple_wav(pcm@, sample_rate));
    Ok(())
}

/// The byte length of a 16-bit stereo WAV file of `samples` samples.
pub proof fn simple_wav_length(pcm: Seq<i16>, sample_rate: u32)
    ensures
        simple_wav(pcm, sample_rate).len() == 44 + 2 * pcm.len(),
        simple_wav(pcm, sample_rate).subrange(0, 4) == riff_tag(),
    decreases pcm.len(),
{
    lemma_sample_bytes_len(pcm);
    assert(simple_wav(pcm, sample_rate).subrange(0, 4) =~= riff_tag());
}

proof fn lemma_sample_bytes_len(pcm: Seq<i16>)
    ensures
        sample_bytes(pcm).len() == 2 * pcm.len(),
    decreases pcm.len(),
{
    if pcm.len() > 0 {
        lemma_sample_bytes_len(pcm.drop_last());
    }
}

// ── Loop export with slice markers ──────────────────────────────────────────

/// A slice gets a cue marker when it is not muted and overlaps the loop region.
pub open spec fn cued<T, E, L>(s: Slice<T, E, L>, loop_start: usize, loop_end: usize) -> bool {
    !s.muted && s.end > loop_start && s.start < loop_end
}

/// Cue positions, in frames from the loop start, of the cued slices in order.
pub open spec fn cue_positions_of<T, E, L>(s: Seq<Slice<T, E, L>>, loop_start: usize, loop_end: usize) -> Seq<u32>
    decreases s.len(),
{
    if s.len() == 0 {
        Seq::empty()
    } else {
        let rest = cue_positions_of(s.drop_last(), loop_start, loop_end);
        let x = s.last();
        if cued(x, loop_start, loop_end) {
            rest.push(((if x.start >= loop_start { x.start } else { loop_start }) - loop_start) as u32)
        } else {
            rest
        }
    }
}

/// The cue list has one position per slice that is not muted and overlaps
/// the loop region, whatever its other settings (a reversed slice too), in
/// layout order: each slice's start clipped to the loop region, counted from
/// the loop start.
pub proof fn cue_positions_cover_overlapping_slices<T, E, L>(
    s: Seq<Slice<T, E, L>>,
    loop_start: usize,
    loop_end: usize,
)
    ensures
        cue_positions_of(s, loop_start, loop_end) == s.filter(
            (|x: Slice<T, E, L>| !x.muted && x.end > loop_start && x.start < loop_end),
        ).map_values((|x: Slice<T, E, L>| (if x.start >= loop_start { x.start - loop_start } else { 0 }) as u32)),
    decreases s.len(),
{
    reveal(Seq::filter);
    let pred = |x: Slice<T, E, L>| !x.muted && x.end > loop_start && x.start < loop_end;
    let pos = |x: Slice<T, E, L>| (if x.start >= loop_start { x.start - loop_start } else { 0 }) as u32;
    if s.len() == 0 {
        assert(s.filter(pred).map_values(pos) =~= Seq::<u32>::empty());
    } else {
        cue_positions_cover_overlapping_slices(s.drop_last(), loop_start, loop_end);
        let f = s.drop_last().filter(pred);
        if pred(s.last()) {
            assert(s.filter(pred) == f.push(s.last()));
            assert(f.push(s.last()).map_values(pos) =~= f.map_values(pos).push(pos(s.last())));
        } else {
            assert(s.filter(pred) == f);
        }
    }
}

pub open spec fn cue_entry(i: nat, pos: u32) -> Seq<u8> {
    le32((i + 1) as u32) + le32(pos) + data_tag() + le32(0) + le32(0) + le32(pos)
}

pub open spec fn cue_entries(ps: Seq<u32>) -> Seq<u8>
    decreases ps.len(),
{
    if ps.len() == 0 {
        Seq::empty()
    } else {
        cue_entries(ps.drop_last()) + cue_entry((ps.len() - 1) as nat, ps.last())
    }
}

/// Payload of the `cue ` chunk: the marker count, then one 24-byte point per marker.
pub open spec fn cue_payload(ps: Seq<u32>) -> Seq<u8> {
    le32(ps.len() as u32) + cue_entries(ps)
}

/// Payload of the `acid` chunk: a loop, root note 60, no flags, zero unscaled
/// length, the loop's beat count and tempo (as 32-bit float bit patterns),
/// and a 4/4 meter.
pub open spec fn acid_payload(beats_bits: u32, tempo_bits: u32) -> Seq<u8> {
    le32(1) + le16(60) + le16(0) + le32(0) + le32(beats_bits) + le16(4) + le16(4) + le32(tempo_bits)
}

pub open spec fn decimal_bytes(n: nat) -> Seq<u8>
    decreases n,
{
    if n < 10 {
        seq![(48 + n) as u8]
    } else {
        decimal_bytes(n / 10).push((48 + n % 10) as u8)
    }
}

/// "Slice <n>" and a terminating zero, padded with another zero to an even length.
pub open spec fn label_text(n: nat) -> Seq<u8> {
    let t = seq![83u8, 108, 105, 99, 101, 32] + decimal_bytes(n) + seq![0u8];
    if t.len() % 2 != 0 {
        t.push(0)
    } else {
        t
    }
}

pub open spec fn label_entry(i: nat) -> Seq<u8> {
    labl_tag() + le32((4 + label_text(i + 1).len()) as u32) + le32((i + 1) as u32) + label_text(i + 1)
}

pub open spec fn label_entries(n: nat) -> Seq<u8>
    decreases n,
{
    if n == 0 {
        Seq::empty()
    } else {
        label_entries((n - 1) as nat) + label_entry((n - 1) as nat)
    }
}

/// Payload of the `LIST` chunk: an `adtl` list with one label per marker.
pub open spec fn list_payload(n: nat) -> Seq<u8> {
    adtl_tag() + label_entries(n)
}

pub open spec fn riff_size(samples: nat, cue_len: nat, list_len: nat) -> int {
    4 + (8 + 16) + (8 + data_size(samples)) + (8 + cue_len) + (8 + 24) + (8 + list_len)
}

/// The loop as a WAV file with slice markers.
pub open spec fn sliced_wav(pcm: Seq<i16>, sample_rate: u32, ps: Seq<u32>, beats_bits: u32, tempo_bits: u32) -> Seq<
    u8,
> {
    let cue = cue_payload(ps);
    let list = list_payload(ps.len());
    riff_tag() + le32(riff_size(pcm.len(), cue.len(), list.len()) as u32) + wave_tag() + fmt_chunk(sample_rate)
        + data_tag() + le32(data_size(pcm.len())) + sample_bytes(pcm) + cue_tag() + le32(cue.len() as u32) + cue
        + acid_tag() + le32(24) + acid_payload(beats_bits, tempo_bits) + list_tag() + le32(list.len() as u32)
        + list
}

/// The arithmetic of the file's sizes stays within 32 bits.
pub open spec fn sliced_wav_fits(samples: nat, sample_rate: u32, cues: nat) -> bool {
    &&& sample_rate * 4 <= u32::MAX
    &&& riff_size(samples, cue_payload_len(cues), list_payload(cues).len()) <= u32::MAX
}

pub open spec fn cue_payload_len(n: nat) -> nat {
    4 + 24 * n
}

proof fn lemma_cue_entries_len(ps: Seq<u32>)
    ensures
        cue_entries(ps).len() == 24 * ps.len(),
    decreases ps.len(),
{
    if ps.len() > 0 {
        lemma_cue_entries_len(ps.drop_last());
    }
}

proof fn lemma_label_entries_grow(n: nat)
    ensures
        label_entries(n).len() >= 20 * n,
    decreases n,
{
    if n > 0 {
        lemma_label_entries_grow((n - 1) as nat);
    }
}

fn push_decimal_bytes(out: &mut Vec<u8>, n: usize)
    ensures
        final(out)@ == old(out)@ + decimal_bytes(n as nat),
    decreases n,
{
    if n >= 10 {
        push_decimal_bytes(out, n / 10);
    }
    out.push((48 + n % 10) as u8);
    assert(out@ =~= old(out)@ + decimal_bytes(n as nat));
}

fn cue_payload_bytes(ps: &Vec<u32>) -> (cue: Vec<u8>)
    requires
        ps@.len() <= u32::MAX,
    ensures
        cue@ == cue_payload(ps@),
{
    let n = ps.len();
    let mut cue: Vec<u8> = Vec::new();
    push_le32(&mut cue, n as u32);
    let mut i: usize = 0;
    while i < n
        invariant
            n == ps@.len(),
            n <= u32::MAX,
            0 <= i <= n,
            cue@ == le32(n as u32) + cue_entries(ps@.take(i as int)),
        decreases n - i,
    {
        let ghost before = cue@;
        push_le32(&mut cue, (i + 1) as u32);
        push_le32(&mut cue, ps[i]);
        push_bytes(&mut cue, &[100, 97, 116, 97]);
        push_le32(&mut cue, 0);
        push_le32(&mut cue, 0);
        push_le32(&mut cue, ps[i]);
        assert(ps@.take(i + 1).drop_last() == ps@.take(i as int));
        assert(cue@ =~= le32(n as u32) + cue_entries(ps@.take(i + 1)));
        i = i + 1;
    }
    assert(ps@.take(n as int) == ps@);
    cue
}

fn label_text_bytes(n: usize) -> (text: Vec<u8>)
    ensures
        text@ == label_text(n as nat),
        text@.len() <= 28,
{
    let mut text: Vec<u8> = Vec::new();
    push_bytes(&mut text, &[83, 108, 105, 99, 101, 32]);
    push_decimal_bytes(&mut text, n);
    text.push(0);
    if text.len() % 2 != 0 {
        text.push(0);
    }
    proof {
        lemma_decimal_bytes_short(n as nat);
    }
    assert(text@ =~= label_text(n as nat));
    text
}

fn list_payload_bytes(n: usize) -> (list: Vec<u8>)
    requires
        n < u32::MAX,
    ensures
        list@ == list_payload(n as nat),
{
    let mut list: Vec<u8> = Vec::new();
    push_bytes(&mut list, &[97, 100, 116, 108]);
    let mut k: usize = 0;
    while k < n
        invariant
            n < u32::MAX,
            0 <= k <= n,
            list@ == adtl_tag() + label_entries(k as nat),
        decreases n - k,
    {
        let text = label_text_bytes(k + 1);
        let ghost before = list@;
        push_bytes(&mut list, &[108, 97, 98, 108]);
        push_le32(&mut list, (4 + text.len()) as u32);
        push_le32(&mut list, (k + 1) as u32);
        push_bytes(&mut list, text.as_slice());
        assert(list@ =~= before + label_entry(k as nat));
        assert(label_entries((k + 1) as nat) == label_entries(k as nat) + label_entry(k as nat));
        assert(list@ =~= adtl_tag() + label_entries((k + 1) as nat));
        k = k + 1;
    }
    list
}

fn push_acid_payload(out: &mut Vec<u8>, beats_bits: u32, tempo_bits: u32)
    ensures
        final(out)@ == old(out)@ + acid_payload(beats_bits, tempo_bits),
{
    push_le32(out, 1);
    push_le16(out, 60);
    push_le16(out, 0);
    push_le32(out, 0);
    push_le32(out, beats_bits);
    push_le16(out, 4);
    push_le16(out, 4);
    push_le32(out, tempo_bits);
    assert(out@ =~= old(out)@ + acid_payload(beats_bits, tempo_bits));
}

impl<T: Copy, E: Copy, L: Copy> SliceLoop<T, E, L> {
    /// Cue positions of the slices that get a marker (see `cued`).
    pub fn cue_positions(&self) -> (r: Vec<u32>)
        ensures
            r@ == cue_positions_of(self.slices@, self.loop_start, self.loop_end),
    {
        let ls = self.loop_start;
        let le = self.loop_end;
        let mut r: Vec<u32> = Vec::new();
        let n = self.slices.len();
        let mut i: usize = 0;
        while i < n
            invariant
                n == self.slices@.len(),
                ls == self.loop_start,
                le == self.loop_end,
                0 <= i <= n,
                r@ == cue_positions_of(self.slices@.take(i as int), ls, le),
            decreases n - i,
        {
            let s = self.slices[i];
            assert(self.slices@.take(i + 1).drop_last() == self.slices@.take(i as int));
            if !s.muted && s.end > ls && s.start < le {
                let from = if s.start >= ls { s.start } else { ls };
                r.push((from - ls) as u32);
            }
            i = i + 1;
        }
        assert(self.slices@.take(n as int) == self.slices@);
        r
    }

    /// The loop as a WAV file with a cue marker and label per marked slice
    /// and an `acid` loop chunk; `pcm` is the whole loop as 16-bit samples,
    /// `beats_bits` and `tempo_bits` the loop's beat count and tempo as 32-bit
    /// float bit patterns.
    pub fn sliced_wav_bytes(&self, pcm: &[i16], beats_bits: u32, tempo_bits: u32) -> (out: Vec<u8>)
        requires
            sliced_wav_fits(
                pcm@.len(),
                self.sample_rate,
                cue_positions_of(self.slices@, self.loop_start, self.loop_end).len(),
            ),
        ensures
            out@ == sliced_wav(
                pcm@,
                self.sample_rate,
                cue_positions_of(self.slices@, self.loop_start, self.loop_end),
                beats_bits,
                tempo_bits,
            ),
    {
        let ps = self.cue_positions();
        let n = ps.len();
        proof {
            lemma_cue_entries_len(ps@);
            lemma_label_entries_grow(n as nat);
        }
        let cue = cue_payload_bytes(&ps);
        let list = list_payload_bytes(n);
        let cue_len = cue.len();
        let list_len = list.len();
        let data_len = data_size_exec(pcm.len());
        let riff = 4 + (8 + 16) + (8 + data_len) + (8 + cue_len as u32) + (8 + 24) + (8 + list_len as u32);
        let mut out: Vec<u8> = Vec::new();
        push_bytes(&mut out, &[82, 73, 70, 70]);
        push_le32(&mut out, riff);
        push_bytes(&mut out, &[87, 65, 86, 69]);
        push_fmt_chunk(&mut out, self.sample_rate);
        push_bytes(&mut out, &[100, 97, 116, 97]);
        push_le32(&mut out, data_len);
        push_samples(&mut out, pcm);
        let ghost head = out@;
        push_bytes(&mut out, &[99, 117, 101, 32]);
        push_le32(&mut out, cue_len as u32);
        push_bytes(&mut out, cue.as_slice());
        push_bytes(&mut out, &[97, 99, 105, 100]);
        push_le32(&mut out, 24);
        push_acid_payload(&mut out, beats_bits, tempo_bits);
        push_bytes(&mut out, &[76, 73, 83, 84]);
        push_le32(&mut out, list_len as u32);
        push_bytes(&mut out, list.as_slice());
        assert(out@ =~= sliced_wav(pcm@, self.sample_rate, ps@, beats_bits, tempo_bits));
        out
    }
}

pub open spec fn pow10(k: nat) -> nat
    decreases k,
{
    if k == 0 {
        1
    } else {
        10 * pow10((k - 1) as nat)
    }
}

proof fn lemma_decimal_bytes_pow(n: nat, k: nat)
    requires
        k >= 1,
        n < pow10(k),
    ensures
        decimal_bytes(n).len() <= k,
    decreases k,
{
    if n >= 10 {
        assert(k >= 2) by {
            if k == 1 {
                assert(pow10(1) == 10 * pow10(0));
            }
        }
        assert(pow10(k) == 10 * pow10((k - 1) as nat));
        lemma_decimal_bytes_pow(n / 10, (k - 1) as nat);
    }
}

proof fn lemma_decimal_bytes_short(n: nat)
    requires
        n <= usize::MAX,
    ensures
        decimal_bytes(n).len() <= 20,
{
    reveal_with_fuel(pow10, 21);
    assert(pow10(20) == 100000000000000000000nat);
    lemma_decimal_bytes_pow(n, 20);
}


// ── Reading the tempo a WAV file declares ───────────────────────────────────

/// The bytes "acid" start at `p`.
pub open spec fn acid_at(d: Seq<u8>, p: int) -> bool {
    &&& 0 <= p
    &&& p + 4 <= d.len()
    &&& d[p] == 97 && d[p + 1] == 99 && d[p + 2] == 105 && d[p + 3] == 100
}

/// The little-endian 32-bit value of the four bytes at `p`.
pub open spec fn le32_at(d: Seq<u8>, p: int) -> u32 {
    (d[p] + 256 * d[p + 1] + 65536 * d[p + 2] + 16777216 * d[p + 3]) as u32
}

/// The 32-bit field that the loader takes for the tempo of a WAV file, as a
/// float bit pattern: the four bytes 20 bytes after the first occurrence of
/// "acid", when the file is long enough to hold them. In an `acid` chunk these
/// bytes hold the beat count; the tempo field lies 8 bytes further on.
pub fn acid_tempo_bits(data: &[u8]) -> (r: Option<u32>)
    ensures
        (forall|p: int| !#[trigger] acid_at(data@, p)) ==> r is None,
        forall|p: int|
            #[trigger] acid_at(data@, p) && (forall|q: int| 0 <= q < p ==> !#[trigger] acid_at(data@, q)) ==> r == (if p
                + 24 <= data@.len() {
                Some(le32_at(data@, p + 20))
            } else {
                None
            }),
{
    let n = data.len();
    if n < 4 {
        return None;
    }
    let mut p: usize = 0;
    while p < n - 3
        invariant
            n == data@.len(),
            n >= 4,
            p <= n - 3,
            forall|q: int| 0 <= q < p ==> !#[trigger] acid_at(data@, q),
        decreases n - p,
    {
        if data[p] == 97 && data[p + 1] == 99 && data[p + 2] == 105 && data[p + 3] == 100 {
            assert(acid_at(data@, p as int));
            if n - p >= 24 {
                let v = data[p + 20] as u32 + 256 * (data[p + 21] as u32) + 65536 * (data[p + 22] as u32)
                    + 16777216 * (data[p + 23] as u32);
                return Some(v);
            }
            return None;
        }
        p = p + 1;
    }
    assert forall|q: int| !#[trigger] acid_at(data@, q) by {
        if 0 <= q && q + 4 <= n {
            assert(q < p);
        }
    }
    None
}

} // verus!
