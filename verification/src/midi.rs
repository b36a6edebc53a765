//! The MIDI clip that accompanies an export: one note per exported slice,
//! note-ons and note-offs in time order, closed by an end-of-track marker at
//! the loop's end, encoded as a single-track Standard MIDI File.

use vstd::prelude::*;
use vstd::string::*;
use midly::num::{u4, u7, u15, u28};
use crate::midi::MidiEventKind::{NoteOn, NoteOff, EndOfTrack};
use midly::{Format, Header, MetaMessage, MidiMessage, Smf, Timing, TrackEvent, TrackEventKind as Kind};

verus! {

/// Clip resolution in ticks per quarter note.
pub const TICKS_PER_QUARTER: u16 = 960;

/// Velocity of every note-on.
pub const NOTE_VELOCITY: u8 = 100;

/// A slice's note in clip ticks, before it is fitted into the clip.
#[derive(Debug, Clone, Copy, PartialEq, Eq, Structural)]
pub struct NoteSpan {
    pub on_tick: u32,
    pub off_tick: u32,
    pub note: u8,
}

/// A note-on or note-off at an absolute tick.
#[derive(Debug, Clone, Copy, PartialEq, Eq, Structural)]
pub struct NoteEdge {
    pub tick: u32,
    pub is_on: bool,
    pub note: u8,
}

#[derive(Debug, Clone, Copy, PartialEq, Eq, Structural)]
pub enum MidiEventKind {
    NoteOn,
    NoteOff,
    EndOfTrack,
}

/// A track event, `delta` ticks after the previous one; note events carry
/// their MIDI channel, key and velocity (unused by the end-of-track marker).
#[derive(Debug, Clone, Copy, PartialEq, Eq, Structural)]
pub struct MidiEvent {
    pub delta: u32,
    pub kind: MidiEventKind,
    pub channel: u8,
    pub key: u8,
    pub vel: u8,
}

/// Note-ons sort before note-offs at the same tick.
pub open spec fn edge_rank(e: NoteEdge) -> int {
    if e.is_on {
        0
    } else {
        1
    }
}

pub open spec fn edge_le(a: NoteEdge, b: NoteEdge) -> bool {
    a.tick < b.tick || (a.tick == b.tick && edge_rank(a) <= edge_rank(b))
}

pub open spec fn edges_sorted(s: Seq<NoteEdge>) -> bool {
    forall|i: int, j: int| 0 <= i < j < s.len() ==> edge_le(#[trigger] s[i], #[trigger] s[j])
}

/// The edges of the notes that still have positive length once their
/// note-on is kept before the clip's last tick and their note-off at or
/// before the clip's end, in span order.
pub open spec fn clip_edges(spans: Seq<NoteSpan>, max_ticks: u32) -> Seq<NoteEdge>
    decreases spans.len(),
{
    if spans.len() == 0 {
        Seq::empty()
    } else {
        let rest = clip_edges(spans.drop_last(), max_ticks);
        let sp = spans.last();
        let last_on: int = if max_ticks >= 1 { max_ticks - 1 } else { 0 };
        let on: int = if sp.on_tick <= last_on { sp.on_tick as int } else { last_on };
        let off: int = if sp.off_tick <= max_ticks { sp.off_tick as int } else { max_ticks as int };
        if off > on {
            rest.push(NoteEdge { tick: on as u32, is_on: true, note: sp.note }).push(
                NoteEdge { tick: off as u32, is_on: false, note: sp.note },
            )
        } else {
            rest
        }
    }
}

/// The channel-0 note event of an edge `delta` ticks after the previous event.
pub open spec fn edge_event(e: NoteEdge, delta: int) -> MidiEvent {
    MidiEvent {
        delta: delta as u32,
        kind: if e.is_on { MidiEventKind::NoteOn } else { MidiEventKind::NoteOff },
        channel: 0,
        key: e.note,
        vel: if e.is_on { NOTE_VELOCITY } else { 0 },
    }
}

pub open spec fn prev_tick(s: Seq<NoteEdge>, k: int) -> int {
    if k == 0 {
        0
    } else {
        s[k - 1].tick as int
    }
}

/// Track events on channel 0 for time-ordered edges: each edge after the
/// previous one's tick, then the end-of-track marker at `max_ticks`.
pub open spec fn track_of(s: Seq<NoteEdge>, max_ticks: u32) -> Seq<MidiEvent> {
    Seq::new(
        s.len() + 1,
        |k: int|
            if k < s.len() {
                edge_event(s[k], s[k].tick - prev_tick(s, k))
            } else {
                MidiEvent {
                    delta: (max_ticks - prev_tick(s, k)) as u32,
                    kind: MidiEventKind::EndOfTrack,
                    channel: 0,
                    key: 0,
                    vel: 0,
                }
            },
    )
}

/// Ticks from the start of the track to its last event.
pub open spec fn total_delta(evs: Seq<MidiEvent>) -> int
    decreases evs.len(),
{
    if evs.len() == 0 {
        0
    } else {
        total_delta(evs.drop_last()) + evs.last().delta
    }
}

/// Every note edge of the clip lies within it: none falls after the clip's
/// last tick.
pub proof fn clip_edges_within_clip(spans: Seq<NoteSpan>, max_ticks: u32)
    ensures
        forall|k: int|
            0 <= k < clip_edges(spans, max_ticks).len() ==> #[trigger] clip_edges(spans, max_ticks)[k].tick
                <= max_ticks,
    decreases spans.len(),
{
    if spans.len() > 0 {
        clip_edges_within_clip(spans.drop_last(), max_ticks);
        let rest = clip_edges(spans.drop_last(), max_ticks);
        let r = clip_edges(spans, max_ticks);
        assert forall|k: int| 0 <= k < r.len() implies #[trigger] r[k].tick <= max_ticks by {
            if k < rest.len() {
                assert(r[k] == rest[k]);
            }
        }
    }
}

/// The clip has at most two edges per note.
pub proof fn clip_edges_len(spans: Seq<NoteSpan>, max_ticks: u32)
    ensures
        clip_edges(spans, max_ticks).len() <= 2 * spans.len(),
    decreases spans.len(),
{
    if spans.len() > 0 {
        clip_edges_len(spans.drop_last(), max_ticks);
    }
}

/// Fit the slices' notes into the clip (see `clip_edges`).
pub fn clip_note_edges(spans: &Vec<NoteSpan>, max_ticks: u32) -> (r: Vec<NoteEdge>)
    ensures
        r@ == clip_edges(spans@, max_ticks),
{
    let mut r: Vec<NoteEdge> = Vec::new();
    let last_on = max_ticks.saturating_sub(1);
    let mut i: usize = 0;
    while i < spans.len()
        invariant
            0 <= i <= spans.len(),
            last_on as int == (if max_ticks >= 1 { max_ticks - 1 } else { 0 }),
            r@ == clip_edges(spans@.take(i as int), max_ticks),
        decreases spans.len() - i,
    {
        let sp = spans[i];
        let on = if sp.on_tick <= last_on { sp.on_tick } else { last_on };
        let off = if sp.off_tick <= max_ticks { sp.off_tick } else { max_ticks };
        assert(spans@.take(i + 1).drop_last() == spans@.take(i as int));
        if off > on {
            r.push(NoteEdge { tick: on, is_on: true, note: sp.note });
            r.push(NoteEdge { tick: off, is_on: false, note: sp.note });
        }
        i = i + 1;
    }
    assert(spans@.take(spans.len() as int) == spans@);
    r
}

fn edge_before(a: NoteEdge, b: NoteEdge) -> (r: bool)
    ensures
        r == (edge_le(a, b) && !edge_le(b, a)),
{
    a.tick < b.tick || (a.tick == b.tick && a.is_on && !b.is_on)
}

/// Put the edges in time order, note-ons first at equal ticks; edges that
/// compare equal keep their relative order.
pub fn sort_edges(edges: &Vec<NoteEdge>) -> (r: Vec<NoteEdge>)
    ensures
        r@.to_multiset() == edges@.to_multiset(),
        edges_sorted(r@),
        r@.len() == edges@.len(),
{
    broadcast use vstd::seq_lib::group_to_multiset_ensures;

    let mut r: Vec<NoteEdge> = Vec::new();
    let mut i: usize = 0;
    while i < edges.len()
        invariant
            0 <= i <= edges.len(),
            r@.to_multiset() == edges@.take(i as int).to_multiset(),
            r@.len() == i,
            edges_sorted(r@),
        decreases edges.len() - i,
    {
        let x = edges[i];
        let mut pos: usize = r.len();
        while pos > 0 && edge_before(x, r[pos - 1])
            invariant
                0 <= pos <= r@.len(),
                edges_sorted(r@),
                forall|k: int| pos <= k < r@.len() ==> !edge_le(#[trigger] r@[k], x),
            decreases pos,
        {
            pos = pos - 1;
        }
        let ghost before = r@;
        r.insert(pos, x);
        proof {
            assert(edges@.take(i + 1) == edges@.take(i as int).push(x));
            assert(r@ == before.insert(pos as int, x));
            vstd::seq_lib::to_multiset_insert(before, pos as int, x);
            vstd::seq_lib::to_multiset_build(edges@.take(i as int), x);
            assert forall|a: int, b: int| 0 <= a < b < r@.len() implies edge_le(#[trigger] r@[a], #[trigger] r@[b]) by {
                if b < pos {
                    assert(edge_le(before[a], before[b]));
                } else if b == pos {
                    if pos > 0 {
                        assert(edge_le(before[a], before[pos - 1]));
                    }
                } else if a == pos {
                    assert(!edge_le(before[b - 1], x));
                } else if a < pos {
                    assert(edge_le(before[a], before[b - 1]));
                } else {
                    assert(edge_le(before[a - 1], before[b - 1]));
                }
            }
        }
        i = i + 1;
    }
    assert(edges@.take(edges.len() as int) == edges@);
    r
}

/// The track events for time-ordered edges (see `track_of`).
pub fn track_events(sorted: &Vec<NoteEdge>, max_ticks: u32) -> (evs: Vec<MidiEvent>)
    requires
        edges_sorted(sorted@),
        forall|k: int| 0 <= k < sorted@.len() ==> #[trigger] sorted@[k].tick <= max_ticks,
    ensures
        evs@ == track_of(sorted@, max_ticks),
{
    let mut evs: Vec<MidiEvent> = Vec::new();
    let mut last_tick: u32 = 0;
    let mut i: usize = 0;
    while i < sorted.len()
        invariant
            0 <= i <= sorted.len(),
            edges_sorted(sorted@),
            forall|k: int| 0 <= k < sorted@.len() ==> #[trigger] sorted@[k].tick <= max_ticks,
            last_tick as int == prev_tick(sorted@, i as int),
            evs@ == track_of(sorted@, max_ticks).take(i as int),
        decreases sorted.len() - i,
    {
        let e = sorted[i];
        if i > 0 {
            assert(edge_le(sorted@[i - 1], sorted@[i as int]));
        }
        let kind = if e.is_on { MidiEventKind::NoteOn } else { MidiEventKind::NoteOff };
        let vel = if e.is_on { NOTE_VELOCITY } else { 0 };
        evs.push(MidiEvent { delta: e.tick - last_tick, kind, channel: 0, key: e.note, vel });
        assert(evs@ =~= track_of(sorted@, max_ticks).take(i + 1));
        last_tick = e.tick;
        i = i + 1;
    }
    if sorted.len() > 0 {
        assert(sorted@[sorted.len() - 1].tick <= max_ticks);
    }
    evs.push(MidiEvent { delta: max_ticks - last_tick, kind: MidiEventKind::EndOfTrack, channel: 0, key: 0, vel: 0 });
    assert(evs@ =~= track_of(sorted@, max_ticks));
    evs
}

/// The clip's track: the fitted notes in time order and the end-of-track
/// marker at `max_ticks`. Notes at the same tick and of the same kind may come
/// in any order.
pub fn clip_track(spans: &Vec<NoteSpan>, max_ticks: u32) -> (evs: Vec<MidiEvent>)
    ensures
        exists|s: Seq<NoteEdge>|
            #![trigger track_of(s, max_ticks)]
            edges_sorted(s) && s.to_multiset() == clip_edges(spans@, max_ticks).to_multiset() && evs@
                == track_of(s, max_ticks),
        evs@.len() == clip_edges(spans@, max_ticks).len() + 1,
{
    broadcast use vstd::seq_lib::group_to_multiset_ensures;

    let edges = clip_note_edges(spans, max_ticks);
    let sorted = sort_edges(&edges);
    proof {
        clip_edges_within_clip(spans@, max_ticks);
        assert forall|k: int| 0 <= k < sorted@.len() implies #[trigger] sorted@[k].tick <= max_ticks by {
            assert(sorted@.to_multiset().count(sorted@[k]) > 0);
            assert(edges@.to_multiset().count(sorted@[k]) > 0);
            assert(edges@.contains(sorted@[k]));
        }
    }
    track_events(&sorted, max_ticks)
}

/// A clip track built from time-ordered edges within the clip lasts exactly
/// `max_ticks` ticks: the end-of-track marker falls on the loop's end.
pub proof fn track_ends_at_clip_end(s: Seq<NoteEdge>, max_ticks: u32)
    requires
        edges_sorted(s),
        forall|k: int| 0 <= k < s.len() ==> #[trigger] s[k].tick <= max_ticks,
    ensures
        total_delta(track_of(s, max_ticks)) == max_ticks,
{
    lemma_total_delta_prefix(s, max_ticks, s.len() as int);
    let t = track_of(s, max_ticks);
    assert(t.drop_last() =~= t.take(s.len() as int));
}

proof fn lemma_total_delta_prefix(s: Seq<NoteEdge>, max_ticks: u32, k: int)
    requires
        edges_sorted(s),
        forall|j: int| 0 <= j < s.len() ==> #[trigger] s[j].tick <= max_ticks,
        0 <= k <= s.len(),
    ensures
        total_delta(track_of(s, max_ticks).take(k)) == prev_tick(s, k),
    decreases k,
{
    if k > 0 {
        lemma_total_delta_prefix(s, max_ticks, k - 1);
        let t = track_of(s, max_ticks);
        assert(t.take(k).drop_last() =~= t.take(k - 1));
        if k > 1 {
            assert(edge_le(s[k - 2], s[k - 1]));
        }
    }
}

/// Encoded bytes of a single-track Standard MIDI File with the given
/// resolution and track events, as the `midly` crate writes it.
pub uninterp spec fn smf_bytes(ticks_per_quarter: u16, events: Seq<MidiEvent>) -> Seq<u8>;

/// Writes a single-track Standard MIDI File with `midly::Smf::write` into a
/// byte vector. Trusted: on success the bytes are `smf_bytes` of the
/// arguments. Writing into a vector never fails, and the crate fails only on
/// more than 65535 tracks or a chunk of 4 GiB or more; an event takes at most
/// seven bytes (a delta of up to four, a status and two data bytes), so a
/// track of up to 100 000 000 events is written.
#[verifier::external_body]
fn write_smf(ticks_per_quarter: u16, events: &Vec<MidiEvent>) -> (r: Result<Vec<u8>, &'static str>)
    ensures
        r matches Ok(bytes) ==> bytes@ == smf_bytes(ticks_per_quarter, events@),
        events@.len() <= 100_000_000 ==> r is Ok,
{
    let mut track = Vec::new();
    for e in events {
        let (ch, key, vel) = (u4::new(e.channel), u7::new(e.key), u7::new(e.vel));
        let kind = match e.kind {
            NoteOn => Kind::Midi { channel: ch, message: MidiMessage::NoteOn { key, vel } },
            NoteOff => Kind::Midi { channel: ch, message: MidiMessage::NoteOff { key, vel } },
            EndOfTrack => Kind::Meta(MetaMessage::EndOfTrack),
        };
        track.push(TrackEvent { delta: u28::new(e.delta), kind });
    }
    let mut out = Vec::new();
    let header = Header::new(Format::SingleTrack, Timing::Metrical(u15::new(ticks_per_quarter)));
    Smf { header, tracks: vec![track] }.write(&mut out)?;
    Ok(out)
}

/// The clip as a Standard MIDI File (960 ticks per quarter note), or the
/// encoder's message prefixed with "MIDI write: ".
pub fn midi_clip_bytes(spans: &Vec<NoteSpan>, max_ticks: u32) -> (r: Result<Vec<u8>, String>)
    ensures
        r matches Ok(bytes) ==> exists|s: Seq<NoteEdge>|
            #![trigger track_of(s, max_ticks)]
            edges_sorted(s) && s.to_multiset() == clip_edges(spans@, max_ticks).to_multiset() && bytes@
                == smf_bytes(TICKS_PER_QUARTER, track_of(s, max_ticks)),
        r matches Err(m) ==> "MIDI write: "@.is_prefix_of(m@),
        spans@.len() <= 10_000_000 ==> r is Ok,
{
    let evs = clip_track(spans, max_ticks);
    proof {
        clip_edges_len(spans@, max_ticks);
    }
    match write_smf(TICKS_PER_QUARTER, &evs) {
        Ok(bytes) => Ok(bytes),
        Err(e) => {
            let prefix = "MIDI write: ";
            let mut msg = String::from_str(prefix);
            msg.append(e);
            assert(msg@.subrange(0, prefix@.len() as int) =~= prefix@);
            Err(msg)
        },
    }
}

} // verus!
