use midly::{MetaMessage, MidiMessage, Smf, Timing, TrackEventKind};
use slice_player::midi::{clip_note_edges, clip_track, midi_clip_bytes, sort_edges, track_events};
use slice_player::midi::{MidiEvent, MidiEventKind, NoteEdge, NoteSpan, NOTE_VELOCITY, TICKS_PER_QUARTER};

fn span(on_tick: u32, off_tick: u32, note: u8) -> NoteSpan {
    NoteSpan { on_tick, off_tick, note }
}

fn ev(delta: u32, kind: MidiEventKind, key: u8, vel: u8) -> MidiEvent {
    MidiEvent { delta, kind, channel: 0, key, vel }
}

#[test]
fn clip_drops_empty_notes_and_clamps() {
    let spans = vec![span(0, 960, 48), span(1000, 1000, 49), span(1900, 5000, 50), span(3000, 4000, 51)];
    let edges = clip_note_edges(&spans, 1920);
    assert_eq!(
        edges,
        vec![
            NoteEdge { tick: 0, is_on: true, note: 48 },
            NoteEdge { tick: 960, is_on: false, note: 48 },
            NoteEdge { tick: 1900, is_on: true, note: 50 },
            NoteEdge { tick: 1920, is_on: false, note: 50 },
            NoteEdge { tick: 1919, is_on: true, note: 51 },
            NoteEdge { tick: 1920, is_on: false, note: 51 },
        ]
    );
    assert!(clip_note_edges(&spans, 0).is_empty());
}

#[test]
fn note_ons_sort_before_note_offs() {
    let edges = vec![
        NoteEdge { tick: 960, is_on: false, note: 48 },
        NoteEdge { tick: 0, is_on: true, note: 48 },
        NoteEdge { tick: 960, is_on: true, note: 49 },
        NoteEdge { tick: 1920, is_on: false, note: 49 },
    ];
    let sorted = sort_edges(&edges);
    assert_eq!(
        sorted,
        vec![
            NoteEdge { tick: 0, is_on: true, note: 48 },
            NoteEdge { tick: 960, is_on: true, note: 49 },
            NoteEdge { tick: 960, is_on: false, note: 48 },
            NoteEdge { tick: 1920, is_on: false, note: 49 },
        ]
    );
    let evs = track_events(&sorted, 1920);
    assert_eq!(
        evs,
        vec![
            ev(0, MidiEventKind::NoteOn, 48, NOTE_VELOCITY),
            ev(960, MidiEventKind::NoteOn, 49, NOTE_VELOCITY),
            ev(0, MidiEventKind::NoteOff, 48, 0),
            ev(960, MidiEventKind::NoteOff, 49, 0),
            ev(0, MidiEventKind::EndOfTrack, 0, 0),
        ]
    );
}

#[test]
fn track_ends_on_loop_end() {
    let evs = clip_track(&vec![span(0, 480, 48)], 3840);
    assert_eq!(
        evs,
        vec![
            ev(0, MidiEventKind::NoteOn, 48, 100),
            ev(480, MidiEventKind::NoteOff, 48, 0),
            ev(3360, MidiEventKind::EndOfTrack, 0, 0),
        ]
    );
    let total: u32 = evs.iter().map(|e| e.delta).sum();
    assert_eq!(total, 3840);
    let empty = clip_track(&Vec::new(), 960);
    assert_eq!(empty, vec![ev(960, MidiEventKind::EndOfTrack, 0, 0)]);
}

#[test]
fn clip_encodes_as_single_track_smf() {
    let spans = vec![span(0, 960, 48), span(960, 1920, 49)];
    let bytes = midi_clip_bytes(&spans, 1920).unwrap();
    assert_eq!(&bytes[0..4], b"MThd");
    assert_eq!(&bytes[4..14], &[0, 0, 0, 6, 0, 0, 0, 1, 0x03, 0xC0]);
    assert_eq!(&bytes[14..18], b"MTrk");
    assert_eq!(&bytes[bytes.len() - 3..], &[0xFF, 0x2F, 0x00]);

    let smf = Smf::parse(&bytes).unwrap();
    assert_eq!(smf.header.timing, Timing::Metrical(midly::num::u15::new(TICKS_PER_QUARTER)));
    assert_eq!(smf.tracks.len(), 1);
    let track = &smf.tracks[0];
    assert_eq!(track.len(), 5);
    let deltas: Vec<u32> = track.iter().map(|e| e.delta.as_int()).collect();
    assert_eq!(deltas, vec![0, 960, 0, 960, 0]);
    match track[1].kind {
        TrackEventKind::Midi { channel, message: MidiMessage::NoteOn { key, vel } } => {
            assert_eq!(channel.as_int(), 0);
            assert_eq!(key.as_int(), 49);
            assert_eq!(vel.as_int(), 100);
        }
        _ => panic!("expected a note-on"),
    }
    match track[2].kind {
        TrackEventKind::Midi { message: MidiMessage::NoteOff { key, .. }, .. } => assert_eq!(key.as_int(), 48),
        _ => panic!("expected a note-off"),
    }
    assert_eq!(track[4].kind, TrackEventKind::Meta(MetaMessage::EndOfTrack));
}
