use slice_player::layout::{Slice, SliceLoop};
use slice_player::params::RetriggerRate;
use slice_player::voices::{echo_next_index, echo_read_index, ECHO_LINE_FRAMES};

fn two_slice_loop() -> SliceLoop<(), (), ()> {
    let mut sl = SliceLoop {
        channels: 2,
        sample_rate: 44100,
        total_frames: 44100,
        loop_start: 0,
        loop_end: 44100,
        slices: Vec::new(),
    };
    let mut s1 = Slice::new(0, 20000, 60, (), (), ());
    s1.fx.retrigger_rate = RetriggerRate::Sixteenth;
    sl.slices.push(s1);
    sl.slices.push(Slice::new(20000, 40000, 61, (), (), ()));
    sl
}

#[test]
fn test_retrigger_choked_by_next_slice() {
    let sl = two_slice_loop();
    // Note 60 plays slice #1.
    let first = sl.triggered_slice(60);
    assert_eq!(first, Some((0, 20000)));
    let mut voices: Vec<usize> = vec![first.unwrap().0];
    assert_eq!(voices.len(), 1);
    // Note 61 plays slice #2 and cuts off the retriggering slice #1.
    let (second, _) = sl.triggered_slice(61).unwrap();
    voices.retain(|&v| !sl.cuts_off_voice(second, v));
    voices.push(second);
    assert_eq!(voices.len(), 1);
    assert_eq!(voices[0], 1);
}

#[test]
fn untriggered_notes() {
    let mut sl = two_slice_loop();
    assert_eq!(sl.triggered_slice(62), None);
    sl.slices[1].muted = true;
    assert_eq!(sl.triggered_slice(61), None);
    sl.slices[1].muted = false;
    sl.loop_end = 30000;
    assert_eq!(sl.triggered_slice(61), Some((1, 10000)));
    sl.loop_end = 10000;
    assert_eq!(sl.triggered_slice(61), None);
}

#[test]
fn first_slice_with_note_wins() {
    let mut sl = two_slice_loop();
    sl.slices[1].note = 60;
    assert_eq!(sl.triggered_slice(60), Some((0, 20000)));
}

#[test]
fn choke_groups() {
    let mut sl = two_slice_loop();
    assert!(sl.cuts_off_voice(1, 1));
    assert!(sl.cuts_off_voice(1, 0));
    assert!(!sl.cuts_off_voice(0, 1));
    sl.slices[0].fx.choke_group = 3;
    sl.slices[1].fx.choke_group = 3;
    assert!(sl.cuts_off_voice(0, 1));
    sl.slices[0].fx.choke_group = 0;
    sl.slices[1].fx.choke_group = 0;
    assert!(!sl.cuts_off_voice(0, 1));
    assert!(!sl.cuts_off_voice(0, 7));
}

#[test]
fn read_frame_holds_at_loop_end() {
    let sl = two_slice_loop();
    let s = sl.slices[1];
    assert_eq!(sl.read_frame(&s, 5, 88200), Some(20005));
    assert_eq!(sl.read_frame(&s, 30000, 88200), Some(44099));
    assert_eq!(sl.read_frame(&s, 5, 40012), Some(20005));
    assert_eq!(sl.read_frame(&s, 5, 40011), None);
}

#[test]
fn echo_line_indices() {
    assert_eq!(echo_read_index(1000, 250), 750);
    assert_eq!(echo_read_index(10, 250), ECHO_LINE_FRAMES - 240);
    assert_eq!(echo_read_index(10, 0), 9);
    assert_eq!(echo_read_index(0, 0), ECHO_LINE_FRAMES - 1);
    assert_eq!(echo_read_index(10, 1_000_000), 11);
    assert_eq!(echo_next_index(5), 6);
    assert_eq!(echo_next_index(ECHO_LINE_FRAMES - 1), 0);
    for w in [0, 1, 500, ECHO_LINE_FRAMES - 1] {
        for d in [0, 1, 2, 48000, ECHO_LINE_FRAMES - 1, ECHO_LINE_FRAMES, usize::MAX] {
            assert_ne!(echo_read_index(w, d), w);
        }
    }
}
