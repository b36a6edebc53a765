//! What the exporters write: which slices are exported and over which frame
//! range, the MIDI note of each, frame reversal of reversed slices, and the
//! `multisample.xml` index of a Bitwig Studio multisample archive.

use vstd::prelude::*;
use vstd::string::*;
use crate::layout::{Slice, SliceLoop};
use crate::text::{decimal, decimal2, escape_seq, sanitize_seq, sanitize_ascii, xml_escape, push_decimal,
    string_from_chars, decimal2_injective, decimal_at_most_twenty_digits};

verus! {

/// An exported slice: its index in the layout and its frame range clipped to
/// the loop region.
#[derive(Debug, Clone, Copy, PartialEq, Eq, Structural)]
pub struct ExportRegion {
    pub index: usize,
    pub start: usize,
    pub end: usize,
}

/// A slice's note with its range relative to the loop start.
#[derive(Debug, Clone, Copy, PartialEq, Eq, Structural)]
pub struct NoteRegion {
    pub note: u8,
    pub rel_start: usize,
    pub rel_end: usize,
}

pub open spec fn clipped_start<T, E, L>(s: Slice<T, E, L>, loop_start: usize) -> usize {
    if s.start >= loop_start {
        s.start
    } else {
        loop_start
    }
}

pub open spec fn clipped_end<T, E, L>(s: Slice<T, E, L>, loop_end: usize) -> usize {
    if s.end <= loop_end {
        s.end
    } else {
        loop_end
    }
}

/// A slice is exported when it is not muted and keeps at least one frame
/// inside the loop region.
pub open spec fn exported<T, E, L>(s: Slice<T, E, L>, loop_start: usize, loop_end: usize) -> bool {
    !s.muted && clipped_end(s, loop_end) > clipped_start(s, loop_start)
}

/// The exported slices, in layout order.
pub open spec fn export_regions_of<T, E, L>(s: Seq<Slice<T, E, L>>, loop_start: usize, loop_end: usize) -> Seq<
    ExportRegion,
>
    decreases s.len(),
{
    if s.len() == 0 {
        Seq::empty()
    } else {
        let rest = export_regions_of(s.drop_last(), loop_start, loop_end);
        let x = s.last();
        if exported(x, loop_start, loop_end) {
            rest.push(
                ExportRegion {
                    index: (s.len() - 1) as usize,
                    start: clipped_start(x, loop_start),
                    end: clipped_end(x, loop_end),
                },
            )
        } else {
            rest
        }
    }
}

/// Every exported region names a slice of the layout, and is that slice's
/// non-empty range clipped to the loop region.
pub proof fn export_regions_are_clipped_slices<T, E, L>(s: Seq<Slice<T, E, L>>, loop_start: usize, loop_end: usize)
    requires
        s.len() <= usize::MAX,
    ensures
        forall|k: int|
            0 <= k < export_regions_of(s, loop_start, loop_end).len() ==> {
                let r = #[trigger] export_regions_of(s, loop_start, loop_end)[k];
                &&& r.index < s.len()
                &&& exported(s[r.index as int], loop_start, loop_end)
                &&& r.start == clipped_start(s[r.index as int], loop_start)
                &&& r.end == clipped_end(s[r.index as int], loop_end)
                &&& loop_start <= r.start < r.end <= loop_end
            },
    decreases s.len(),
{
    if s.len() > 0 {
        export_regions_are_clipped_slices(s.drop_last(), loop_start, loop_end);
        let rest = export_regions_of(s.drop_last(), loop_start, loop_end);
        let all = export_regions_of(s, loop_start, loop_end);
        assert forall|k: int| 0 <= k < all.len() implies {
            let r = #[trigger] all[k];
            &&& r.index < s.len()
            &&& exported(s[r.index as int], loop_start, loop_end)
            &&& r.start == clipped_start(s[r.index as int], loop_start)
            &&& r.end == clipped_end(s[r.index as int], loop_end)
            &&& loop_start <= r.start < r.end <= loop_end
        } by {
            if k < rest.len() {
                let rr = rest[k];
                assert(all[k] == rr);
                assert(rr.index < s.len() - 1);
                assert(s.drop_last()[rr.index as int] == s[rr.index as int]);
            } else {
                let x = s.last();
                if !exported(x, loop_start, loop_end) {
                    assert(all == rest);
                }
                assert(all[k] == ExportRegion {
                    index: (s.len() - 1) as usize,
                    start: clipped_start(x, loop_start),
                    end: clipped_end(x, loop_end),
                });
            }
        }
    }
}

/// Every slice that is not muted and keeps at least one frame inside the
/// loop region is exported, whatever its other settings (a reversed slice
/// too); no other slice is, and the regions come in layout order, each slice
/// at most once.
pub proof fn export_regions_complete<T, E, L>(s: Seq<Slice<T, E, L>>, loop_start: usize, loop_end: usize)
    requires
        s.len() <= usize::MAX,
    ensures
        forall|i: int|
            0 <= i < s.len() ==> ((!s[i].muted && s[i].start < s[i].end && s[i].start < loop_end && loop_start
                < s[i].end && loop_start < loop_end) <==> exists|k: int|
                0 <= k < export_regions_of(s, loop_start, loop_end).len() && #[trigger] export_regions_of(
                    s,
                    loop_start,
                    loop_end,
                )[k].index == i),
        forall|k1: int, k2: int|
            0 <= k1 < k2 < export_regions_of(s, loop_start, loop_end).len() ==> export_regions_of(
                s,
                loop_start,
                loop_end,
            )[k1].index < export_regions_of(s, loop_start, loop_end)[k2].index,
    decreases s.len(),
{
    if s.len() > 0 {
        let d = s.drop_last();
        export_regions_complete(d, loop_start, loop_end);
        export_regions_are_clipped_slices(d, loop_start, loop_end);
        let rest = export_regions_of(d, loop_start, loop_end);
        let all = export_regions_of(s, loop_start, loop_end);
        let n = s.len() - 1;
        let x = s.last();
        let pushed = exported(x, loop_start, loop_end);
        assert(pushed == (!x.muted && x.start < x.end && x.start < loop_end && loop_start < x.end && loop_start
            < loop_end));
        assert forall|k: int| 0 <= k < rest.len() implies all[k] == rest[k] && rest[k].index < n by {}
        if pushed {
            assert(all.len() == rest.len() + 1);
            assert(all[rest.len() as int].index == n);
        } else {
            assert(all == rest);
        }
        assert forall|i: int|
            0 <= i < s.len() implies ((!s[i].muted && s[i].start < s[i].end && s[i].start < loop_end && loop_start
                < s[i].end && loop_start < loop_end) <==> exists|k: int|
                0 <= k < all.len() && #[trigger] all[k].index == i) by {
            if i < n {
                assert(d[i] == s[i]);
                if exists|k: int| 0 <= k < all.len() && #[trigger] all[k].index == i {
                    let k = choose|k: int| 0 <= k < all.len() && #[trigger] all[k].index == i;
                    assert(k < rest.len());
                    assert(rest[k].index == i);
                }
                if exists|k: int| 0 <= k < rest.len() && #[trigger] rest[k].index == i {
                    let k = choose|k: int| 0 <= k < rest.len() && #[trigger] rest[k].index == i;
                    assert(all[k].index == i);
                }
            } else {
                if pushed {
                    assert(all[rest.len() as int].index == i);
                } else {
                    if exists|k: int| 0 <= k < all.len() && #[trigger] all[k].index == i {
                        let k = choose|k: int| 0 <= k < all.len() && #[trigger] all[k].index == i;
                        assert(rest[k].index < n);
                    }
                }
            }
        }
        assert forall|k1: int, k2: int| 0 <= k1 < k2 < all.len() implies all[k1].index < all[k2].index by {
            if k2 < rest.len() {
                assert(rest[k1].index < rest[k2].index);
            } else {
                assert(all[k1] == rest[k1]);
            }
        }
    }
}

/// A slice's MIDI note with its range relative to the loop start.
pub open spec fn note_region_of<T, E, L>(s: Seq<Slice<T, E, L>>, r: ExportRegion, loop_start: usize) -> NoteRegion {
    NoteRegion {
        note: s[r.index as int].note,
        rel_start: (r.start - loop_start) as usize,
        rel_end: (r.end - loop_start) as usize,
    }
}

/// A sample zone of a multisample archive: the `pos`-th exported slice, of
/// `frames` frames, played by the slice's own MIDI note, so that the
/// accompanying MIDI clip triggers it.
#[derive(Debug, Clone, Copy, PartialEq, Eq, Structural)]
pub struct SampleZone {
    pub pos: usize,
    pub frames: usize,
    pub note: u8,
}

pub open spec fn sample_file_name_of(pos: nat) -> Seq<char> {
    "sample_"@ + decimal2(pos + 1) + ".wav"@
}

/// Distinct zones get distinct sample file names, each a short name that is
/// not the index's.
pub proof fn sample_file_names_distinct(p: nat, q: nat)
    requires
        p < usize::MAX,
        q < usize::MAX,
    ensures
        sample_file_name_of(p) == sample_file_name_of(q) ==> p == q,
        sample_file_name_of(p).len() <= 31,
        sample_file_name_of(p) != "multisample.xml"@,
{
    reveal_strlit("sample_");
    reveal_strlit(".wav");
    reveal_strlit("multisample.xml");
    decimal_at_most_twenty_digits(p + 1);
    decimal_at_most_twenty_digits(q + 1);
    let a = sample_file_name_of(p);
    let b = sample_file_name_of(q);
    assert(a[0] == 's');
    if a == b {
        assert(decimal2(p + 1) =~= a.subrange(7, a.len() - 4));
        assert(decimal2(q + 1) =~= b.subrange(7, b.len() - 4));
        decimal2_injective(p + 1, q + 1);
    }
}

pub open spec fn zone_xml(z: SampleZone) -> Seq<char> {
    let file = sample_file_name_of(z.pos as nat);
    let frames = decimal(z.frames as nat);
    let note = decimal(z.note as nat);
    "   <sample file=\""@ + file
        + "\" gain=\"0.00\" group=\"0\" parameter-1=\"0.0000\" parameter-2=\"0.0000\" parameter-3=\"0.0000\" reverse=\"false\" sample-start=\"0.000\" sample-stop=\""@
        + frames + ".000\" zone-logic=\"always-play\">\n      <key high=\""@ + note + "\" low=\""@ + note
        + "\" root=\""@ + note
        + "\" track=\"0.0000\" tune=\"0.00\"/>\n      <velocity high=\"127\" low=\"0\"/>\n      <select/>\n      <loop fade=\"0.0000\" mode=\"off\" start=\"0.000\" stop=\""@
        + frames + ".000\"/>\n   </sample>\n"@
}

pub open spec fn zones_xml(zs: Seq<SampleZone>) -> Seq<char>
    decreases zs.len(),
{
    if zs.len() == 0 {
        Seq::empty()
    } else {
        zones_xml(zs.drop_last()) + zone_xml(zs.last())
    }
}

/// The name written into the archive: the loop's file stem, or a stock name
/// when it has none, cleaned up to printable ASCII and XML-escaped.
pub open spec fn archive_name(stem: Option<Seq<char>>) -> Seq<char> {
    escape_seq(
        sanitize_seq(
            match stem {
                Some(n) => n,
                None => "SlicePlayer Loop"@,
            },
        ),
    )
}

/// The `multisample.xml` index of the archive.
pub open spec fn multisample_xml_of(stem: Option<Seq<char>>, zones: Seq<SampleZone>) -> Seq<char> {
    "<?xml version=\"1.0\" encoding=\"UTF-8\"?>"@ + "<multisample name=\""@ + archive_name(stem) + "\">\n"@
        + "   <generator>SlicePlayer 1.0</generator>\n"@ + "   <category>Sample Slices</category>\n"@
        + "   <creator>Aura SlicePlayer</creator>\n"@ + "   <group color=\"ff8800\" name=\"Slices\"/>\n"@
        + zones_xml(zones) + "</multisample>\n"@
}

/// The first `2 * (len / 2)` entries read as stereo frames (left, right) in
/// reverse frame order; a trailing odd entry stays where it is.
pub open spec fn frames_reversed<T>(s: Seq<T>) -> Seq<T> {
    let frames = s.len() / 2;
    Seq::new(
        s.len(),
        |i: int|
            if i < 2 * frames {
                s[2 * (frames - 1 - i / 2) + i % 2]
            } else {
                s[i]
            },
    )
}

impl<T: Copy, E: Copy, L: Copy> SliceLoop<T, E, L> {
    /// The slices that are exported, with their ranges clipped to the loop
    /// region (see `exported`).
    pub fn export_regions(&self) -> (r: Vec<ExportRegion>)
        ensures
            r@ == export_regions_of(self.slices@, self.loop_start, self.loop_end),
    {
        let ls = self.loop_start;
        let le = self.loop_end;
        let mut r: Vec<ExportRegion> = Vec::new();
        let n = self.slices.len();
        let mut i: usize = 0;
        while i < n
            invariant
                n == self.slices@.len(),
                ls == self.loop_start,
                le == self.loop_end,
                0 <= i <= n,
                r@ == export_regions_of(self.slices@.take(i as int), ls, le),
            decreases n - i,
        {
            let s = self.slices[i];
            let cs = if s.start >= ls { s.start } else { ls };
            let ce = if s.end <= le { s.end } else { le };
            assert(self.slices@.take(i + 1).drop_last() == self.slices@.take(i as int));
            if !s.muted && ce > cs {
                r.push(ExportRegion { index: i, start: cs, end: ce });
            }
            i = i + 1;
        }
        assert(self.slices@.take(n as int) == self.slices@);
        r
    }

    /// The notes of the exported slices with their ranges relative to the
    /// loop start, for the accompanying MIDI clip.
    pub fn midi_note_regions(&self) -> (r: Vec<NoteRegion>)
        ensures
            r@ == export_regions_of(self.slices@, self.loop_start, self.loop_end).map_values(
                |x: ExportRegion| note_region_of(self.slices@, x, self.loop_start),
            ),
    {
        let regions = self.export_regions();
        let slice_count = self.slices.len();
        proof {
            export_regions_are_clipped_slices(self.slices@, self.loop_start, self.loop_end);
        }
        let mut r: Vec<NoteRegion> = Vec::new();
        let mut i: usize = 0;
        while i < regions.len()
            invariant
                0 <= i <= regions.len(),
                regions@ == export_regions_of(self.slices@, self.loop_start, self.loop_end),
                forall|k: int|
                    0 <= k < regions@.len() ==> {
                        let x = #[trigger] regions@[k];
                        &&& x.index < self.slices@.len()
                        &&& self.loop_start <= x.start < x.end <= self.loop_end
                    },
                r@ == regions@.take(i as int).map_values(
                    |x: ExportRegion| note_region_of(self.slices@, x, self.loop_start),
                ),
            decreases regions.len() - i,
        {
            let x = regions[i];
            assert(x == regions@[i as int]);
            let note = self.slices[x.index].note;
            r.push(NoteRegion { note, rel_start: x.start - self.loop_start, rel_end: x.end - self.loop_start });
            assert(r@ =~= regions@.take(i + 1).map_values(
                |x: ExportRegion| note_region_of(self.slices@, x, self.loop_start),
            ));
            i = i + 1;
        }
        assert(regions@.take(regions.len() as int) == regions@);
        r
    }

    /// The exported slices of a multisample archive, or the error the export
    /// reports when no slice is exported.
    pub fn multisample_regions(&self) -> (r: Result<Vec<ExportRegion>, String>)
        ensures
            match r {
                Ok(v) => v@ == export_regions_of(self.slices@, self.loop_start, self.loop_end) && v@.len() > 0,
                Err(e) => export_regions_of(self.slices@, self.loop_start, self.loop_end).len() == 0 && e@
                    == "No active slices within loop markers to export."@,
            },
    {
        let regions = self.export_regions();
        if regions.len() == 0 {
            Err(String::from_str("No active slices within loop markers to export."))
        } else {
            Ok(regions)
        }
    }

    /// The sample zones of a multisample archive, one per exported slice in
    /// order, each keyed to its slice's note; or the error of
    /// `multisample_regions`.
    pub fn multisample_zones(&self) -> (r: Result<Vec<SampleZone>, String>)
        ensures
            match r {
                Ok(v) => {
                    let regions = export_regions_of(self.slices@, self.loop_start, self.loop_end);
                    &&& regions.len() > 0
                    &&& v@.len() == regions.len()
                    &&& forall|k: int| 0 <= k < v@.len() ==> #[trigger] v@[k] == zone_of(self.slices@, regions[k], k)
                },
                Err(e) => export_regions_of(self.slices@, self.loop_start, self.loop_end).len() == 0 && e@
                    == "No active slices within loop markers to export."@,
            },
    {
        let regions = match self.multisample_regions() {
            Ok(v) => v,
            Err(e) => {
                return Err(e);
            },
        };
        let slice_count = self.slices.len();
        proof {
            export_regions_are_clipped_slices(self.slices@, self.loop_start, self.loop_end);
        }
        let mut zones: Vec<SampleZone> = Vec::new();
        let mut k: usize = 0;
        while k < regions.len()
            invariant
                0 <= k <= regions.len(),
                regions@ == export_regions_of(self.slices@, self.loop_start, self.loop_end),
                forall|j: int|
                    0 <= j < regions@.len() ==> {
                        let x = #[trigger] regions@[j];
                        &&& x.index < self.slices@.len()
                        &&& x.start < x.end
                    },
                zones@.len() == k,
                forall|j: int| 0 <= j < k ==> #[trigger] zones@[j] == zone_of(self.slices@, regions@[j], j),
            decreases regions.len() - k,
        {
            let x = regions[k];
            assert(x == regions@[k as int]);
            zones.push(SampleZone { pos: k, frames: x.end - x.start, note: self.slices[x.index].note });
            k = k + 1;
        }
        Ok(zones)
    }
}

/// The sample zone of the `k`-th exported region: its position, its length
/// and the note of its slice.
pub open spec fn zone_of<T, E, L>(s: Seq<Slice<T, E, L>>, r: ExportRegion, k: int) -> SampleZone {
    SampleZone { pos: k as usize, frames: (r.end - r.start) as usize, note: s[r.index as int].note }
}

/// Reverse the order of the stereo frames held interleaved in `pcm`
/// (see `frames_reversed`).
pub fn reverse_frames<T: Copy>(pcm: &mut Vec<T>)
    ensures
        final(pcm)@ == frames_reversed(old(pcm)@),
{
    let ghost orig = pcm@;
    let len = pcm.len();
    let frames = len / 2;
    let half = frames / 2;
    let mut f: usize = 0;
    while f < half
        invariant
            orig == old(pcm)@,
            len == orig.len(),
            frames == len / 2,
            half == frames / 2,
            0 <= f <= half,
            pcm@.len() == len,
            forall|i: int|
                0 <= i < len ==> #[trigger] pcm@[i] == (if i < 2 * f || (2 * (frames - f) <= i < 2 * frames) {
                    frames_reversed(orig)[i]
                } else {
                    orig[i]
                }),
        decreases half - f,
    {
        let l = 2 * f;
        let r = 2 * (frames - 1 - f);
        let a0 = pcm[l];
        let a1 = pcm[l + 1];
        let b0 = pcm[r];
        let b1 = pcm[r + 1];
        pcm.set(l, b0);
        pcm.set(l + 1, b1);
        pcm.set(r, a0);
        pcm.set(r + 1, a1);
        f = f + 1;
    }
    assert forall|i: int| 0 <= i < len implies #[trigger] pcm@[i] == frames_reversed(orig)[i] by {
        if 2 * f <= i < 2 * (frames - f) {
            assert(i / 2 == frames - 1 - i / 2);
        }
    }
    assert(pcm@ =~= frames_reversed(orig));
}

/// Reversing the frames twice gives back the original samples.
pub proof fn reverse_frames_twice<T>(s: Seq<T>)
    ensures
        frames_reversed(frames_reversed(s)) == s,
{
    let once = frames_reversed(s);
    let frames = s.len() / 2;
    assert forall|i: int| 0 <= i < s.len() implies #[trigger] frames_reversed(once)[i] == s[i] by {
        if i < 2 * frames {
            let j = 2 * (frames - 1 - i / 2) + i % 2;
            assert(j / 2 == frames - 1 - i / 2);
            assert(j % 2 == i % 2);
        }
    }
    assert(frames_reversed(once) =~= s);
}

/// Name of the archive entry of zone `pos`: "sample_01.wav" for zone 0.
pub fn sample_file_name(pos: usize) -> (s: String)
    requires
        pos < usize::MAX,
    ensures
        s@ == sample_file_name_of(pos as nat),
{
    let mut s = String::from_str("sample_");
    let mut digits: Vec<char> = Vec::new();
    if pos + 1 < 10 {
        digits.push('0');
    }
    push_decimal(&mut digits, pos + 1);
    assert(digits@ =~= decimal2((pos + 1) as nat));
    let d = string_from_chars(&digits);
    s.append(d.as_str());
    s.append(".wav");
    s
}

/// The `multisample.xml` index for the zones written to the archive (see
/// `multisample_xml_of`); `stem` is the loop file's stem when it has one.
#[verifier::rlimit(40)]
pub fn multisample_xml(stem: Option<&str>, zones: &Vec<SampleZone>) -> (xml: String)
    requires
        forall|k: int| 0 <= k < zones@.len() ==> #[trigger] zones@[k].pos < usize::MAX,
    ensures
        xml@ == multisample_xml_of(
            match stem {
                Some(n) => Some(n@),
                None => None,
            },
            zones@,
        ),
{
    let raw: &str = match stem {
        Some(n) => n,
        None => "SlicePlayer Loop",
    };
    let clean = sanitize_ascii(raw);
    let name = xml_escape(clean.as_str());
    let mut xml = String::from_str("<?xml version=\"1.0\" encoding=\"UTF-8\"?>");
    xml.append("<multisample name=\"");
    xml.append(name.as_str());
    xml.append("\">\n");
    xml.append("   <generator>SlicePlayer 1.0</generator>\n");
    xml.append("   <category>Sample Slices</category>\n");
    xml.append("   <creator>Aura SlicePlayer</creator>\n");
    xml.append("   <group color=\"ff8800\" name=\"Slices\"/>\n");
    let ghost head = xml@;
    let mut i: usize = 0;
    while i < zones.len()
        invariant
            0 <= i <= zones.len(),
            forall|k: int| 0 <= k < zones@.len() ==> #[trigger] zones@[k].pos < usize::MAX,
            xml@ == head + zones_xml(zones@.take(i as int)),
        decreases zones.len() - i,
    {
        let z = zones[i];
        assert(zones@[i as int].pos < usize::MAX);
        let file = sample_file_name(z.pos);
        let frames = crate::text::decimal_string(z.frames);
        let note = crate::text::decimal_string(z.note as usize);
        let ghost before = xml@;
        xml.append("   <sample file=\"");
        xml.append(file.as_str());
        xml.append("\" gain=\"0.00\" group=\"0\" parameter-1=\"0.0000\" parameter-2=\"0.0000\" parameter-3=\"0.0000\" reverse=\"false\" sample-start=\"0.000\" sample-stop=\"");
        xml.append(frames.as_str());
        xml.append(".000\" zone-logic=\"always-play\">\n      <key high=\"");
        xml.append(note.as_str());
        xml.append("\" low=\"");
        xml.append(note.as_str());
        xml.append("\" root=\"");
        xml.append(note.as_str());
        xml.append("\" track=\"0.0000\" tune=\"0.00\"/>\n      <velocity high=\"127\" low=\"0\"/>\n      <select/>\n      <loop fade=\"0.0000\" mode=\"off\" start=\"0.000\" stop=\"");
        xml.append(frames.as_str());
        xml.append(".000\"/>\n   </sample>\n");
        assert(xml@ =~= before + zone_xml(z));
        assert(zones@.take(i + 1).drop_last() == zones@.take(i as int));
        i = i + 1;
    }
    assert(zones@.take(zones.len() as int) == zones@);
    xml.append("</multisample>\n");
    assert(xml@ =~= multisample_xml_of(
        match stem {
            Some(n) => Some(n@),
            None => None,
        },
        zones@,
    ));
    xml
}

} // verus!
