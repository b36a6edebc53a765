use slice_player::layout::{Slice, SliceLoop, SliceFx};
use slice_player::params::{DelayRate, FilterMode, GridDivision, RetriggerRate};

fn empty_loop(total: usize) -> SliceLoop<(), (), ()> {
    SliceLoop { channels: 2, sample_rate: 44100, total_frames: total, loop_start: 0, loop_end: total, slices: Vec::new() }
}

fn bounds(sl: &SliceLoop<(), (), ()>) -> Vec<(usize, usize, u8)> {
    sl.slices.iter().map(|s| (s.start, s.end, s.note)).collect()
}

fn assert_contiguous(sl: &SliceLoop<(), (), ()>) {
    for w in sl.slices.windows(2) {
        assert_eq!(w[0].end, w[1].start);
    }
    assert_eq!(sl.slices.last().unwrap().end, sl.total_frames);
}

#[test]
fn grid_of_sixteenths_at_174_bpm() {
    let mut sl = empty_loop(88200);
    let samples_per_beat = (44100.0f64 * 60.0 / 174.0) as usize;
    assert_eq!(samples_per_beat, 15206);
    sl.apply_grid(GridDivision::Sixteenth, samples_per_beat, (), (), ());
    assert_eq!(sl.slices.len(), 24);
    assert_eq!(sl.slices[0].start, 0);
    assert_eq!(sl.slices[0].end, 3801);
    assert_eq!(sl.slices[23].start, 3801 * 23);
    assert_eq!(sl.slices[23].end, 88200);
    for (i, s) in sl.slices.iter().enumerate() {
        assert_eq!(s.note, 48 + i as u8);
        assert!(!s.muted && !s.reverse);
    }
    assert_contiguous(&sl);
}

#[test]
fn grid_notes_cap_at_127() {
    let mut sl = empty_loop(100);
    sl.apply_grid(GridDivision::Quarter, 1, (), (), ());
    assert_eq!(sl.slices.len(), 100);
    assert_eq!(sl.slices[79].note, 127);
    assert_eq!(sl.slices[80].note, 127);
    assert_eq!(sl.slices[99].note, 127);
    assert_eq!(sl.slices[78].note, 126);
}

#[test]
fn grid_slices_are_at_least_one_frame() {
    let mut sl = empty_loop(5);
    sl.apply_grid(GridDivision::ThirtySecond, 3, (), (), ());
    assert_eq!(bounds(&sl), vec![(0, 1, 48), (1, 2, 49), (2, 3, 50), (3, 4, 51), (4, 5, 52)]);
    let mut empty = empty_loop(0);
    empty.apply_grid(GridDivision::Eighth, 100, (), (), ());
    assert!(empty.slices.is_empty());
}

#[test]
fn insert_splits_and_renumbers() {
    let mut sl = empty_loop(400);
    sl.apply_grid(GridDivision::Quarter, 100, (), (), ());
    sl.slices[1].muted = true;
    sl.insert_slice_at(150, (), (), ());
    assert_eq!(
        bounds(&sl),
        vec![(0, 100, 48), (100, 150, 49), (150, 200, 50), (200, 300, 51), (300, 400, 52)]
    );
    assert!(sl.slices[1].muted);
    assert!(!sl.slices[2].muted);
    assert_contiguous(&sl);
}

#[test]
fn insert_on_boundary_or_outside_does_nothing() {
    let mut sl = empty_loop(400);
    sl.apply_grid(GridDivision::Quarter, 100, (), (), ());
    let before = bounds(&sl);
    sl.insert_slice_at(200, (), (), ());
    sl.insert_slice_at(0, (), (), ());
    sl.insert_slice_at(400, (), (), ());
    sl.insert_slice_at(1000, (), (), ());
    assert_eq!(bounds(&sl), before);
}

#[test]
fn remove_merges_into_previous() {
    let mut sl = empty_loop(400);
    sl.apply_grid(GridDivision::Quarter, 100, (), (), ());
    sl.remove_slice(2);
    assert_eq!(bounds(&sl), vec![(0, 100, 48), (100, 300, 49), (300, 400, 50)]);
    sl.remove_slice(1);
    assert_eq!(bounds(&sl), vec![(0, 300, 48), (300, 400, 49)]);
    sl.remove_slice(0);
    assert_eq!(bounds(&sl), vec![(0, 400, 48)]);
    sl.remove_slice(0);
    assert_eq!(bounds(&sl), vec![(0, 400, 48)]);
}

#[test]
fn remove_first_extends_next_back_to_zero() {
    let mut sl = empty_loop(400);
    sl.apply_grid(GridDivision::Quarter, 100, (), (), ());
    sl.remove_slice(0);
    assert_eq!(bounds(&sl), vec![(0, 200, 48), (200, 300, 49), (300, 400, 50)]);
    sl.remove_slice(7);
    assert_eq!(sl.slices.len(), 3);
}

#[test]
fn remove_undoes_insert_bounds() {
    let mut sl = empty_loop(400);
    sl.apply_grid(GridDivision::Quarter, 100, (), (), ());
    let before: Vec<(usize, usize)> = sl.slices.iter().map(|s| (s.start, s.end)).collect();
    sl.insert_slice_at(250, (), (), ());
    assert_eq!(sl.slices.len(), 5);
    sl.remove_slice(3);
    let after: Vec<(usize, usize)> = sl.slices.iter().map(|s| (s.start, s.end)).collect();
    assert_eq!(after, before);
}

#[test]
fn move_marker_clamps_between_neighbours() {
    let mut sl = empty_loop(400);
    sl.apply_grid(GridDivision::Quarter, 100, (), (), ());
    sl.move_slice_start(2, 130);
    assert_eq!((sl.slices[1].end, sl.slices[2].start), (130, 130));
    sl.move_slice_start(2, 5);
    assert_eq!((sl.slices[1].end, sl.slices[2].start), (101, 101));
    sl.move_slice_start(2, 1000);
    assert_eq!((sl.slices[1].end, sl.slices[2].start), (299, 299));
    sl.move_slice_start(3, 1000);
    assert_eq!((sl.slices[2].end, sl.slices[3].start), (399, 399));
    sl.move_slice_start(0, 50);
    assert_eq!(sl.slices[0].start, 0);
    assert_contiguous(&sl);
}

#[test]
fn set_note_swaps_with_holder() {
    let mut sl = empty_loop(400);
    sl.apply_grid(GridDivision::Quarter, 100, (), (), ());
    sl.set_slice_note(0, 50);
    let notes: Vec<u8> = sl.slices.iter().map(|s| s.note).collect();
    assert_eq!(notes, vec![50, 49, 48, 51]);
    sl.set_slice_note(1, 90);
    let notes: Vec<u8> = sl.slices.iter().map(|s| s.note).collect();
    assert_eq!(notes, vec![50, 90, 48, 51]);
    sl.set_slice_note(9, 60);
    sl.set_slice_note(3, 51);
    let notes: Vec<u8> = sl.slices.iter().map(|s| s.note).collect();
    assert_eq!(notes, vec![50, 90, 48, 51]);
}

#[test]
fn fx_copy_and_reset() {
    // Mix settings u8, envelope u16, effect and tuning levels u32.
    let mut sl: SliceLoop<u8, u16, u32> = SliceLoop {
        channels: 2,
        sample_rate: 44100,
        total_frames: 300,
        loop_start: 0,
        loop_end: 300,
        slices: Vec::new(),
    };
    sl.apply_grid(GridDivision::Quarter, 100, 1, 5, 7);
    sl.slices[0].tone = 2;
    sl.slices[1].envelope = 55;
    sl.slices[1].fx = SliceFx {
        filter_mode: FilterMode::Lowpass,
        downsample_factor: 4,
        retrigger_rate: RetriggerRate::Sixteenth,
        choke_group: 2,
        delay_rate: DelayRate::Eighth,
        levels: 99,
    };
    sl.copy_slice_fx_to_all(1);
    for s in &sl.slices {
        assert_eq!(s.fx.filter_mode, FilterMode::Lowpass);
        assert_eq!(s.fx.downsample_factor, 4);
        assert_eq!(s.fx.choke_group, 2);
        assert_eq!(s.fx.levels, 99);
        assert_eq!(s.envelope, 55);
    }
    assert_eq!(sl.slices[0].tone, 2);
    assert_eq!(sl.slices[2].tone, 1);
    assert_eq!((sl.slices[2].start, sl.slices[2].end, sl.slices[2].note), (200, 300, 50));
    sl.copy_slice_fx_to_all(10);
    assert_eq!(sl.slices[0].fx.levels, 99);
    sl.reset_all_slice_fx(7);
    for s in &sl.slices {
        assert_eq!(s.fx.filter_mode, FilterMode::Off);
        assert_eq!(s.fx.downsample_factor, 1);
        assert_eq!(s.fx.retrigger_rate, RetriggerRate::Off);
        assert_eq!(s.fx.choke_group, 0);
        assert_eq!(s.fx.delay_rate, DelayRate::Off);
        assert_eq!(s.fx.levels, 7);
        assert_eq!(s.envelope, 55);
    }
    assert_eq!(sl.slices[0].tone, 2);
}

#[test]
fn slice_basics() {
    let mut a: Slice<u8, u8, u8> = Slice::new(10, 30, 60, 1, 6, 2);
    assert_eq!(a.frame_count(), 20);
    let inverted: Slice<u8, u8, u8> = Slice::new(30, 10, 60, 1, 6, 2);
    assert_eq!(inverted.frame_count(), 0);
    let mut b: Slice<u8, u8, u8> = Slice::new(0, 5, 61, 3, 8, 4);
    b.fx.choke_group = 3;
    a.copy_fx_from(&b);
    assert_eq!(a.fx.choke_group, 3);
    assert_eq!(a.fx.levels, 4);
    assert_eq!(a.tone, 1);
    assert_eq!(a.envelope, 6);
    a.reset_fx(9);
    assert_eq!(a.fx.choke_group, 0);
    assert_eq!(a.fx.levels, 9);
    assert_eq!(a.envelope, 6);
}

#[test]
fn grid_lies_within_the_loop_markers() {
    let mut sl = empty_loop(12);
    sl.loop_start = 4;
    sl.apply_grid(GridDivision::Quarter, 4, (), (), ());
    assert_eq!(bounds(&sl), vec![(4, 8, 48), (8, 12, 49)]);
    let mut inner = empty_loop(1000);
    inner.loop_start = 100;
    inner.loop_end = 350;
    inner.apply_grid(GridDivision::Quarter, 100, (), (), ());
    assert_eq!(bounds(&inner), vec![(100, 200, 48), (200, 300, 49), (300, 350, 50)]);
    inner.loop_end = 5000;
    inner.apply_grid(GridDivision::Quarter, 400, (), (), ());
    assert_eq!(bounds(&inner), vec![(100, 500, 48), (500, 900, 49), (900, 1000, 50)]);
    inner.loop_start = 1000;
    inner.apply_grid(GridDivision::Quarter, 400, (), (), ());
    assert!(inner.slices.is_empty());
}

#[test]
fn clearing_leaves_one_slice() {
    let mut sl = empty_loop(400);
    sl.apply_grid(GridDivision::Quarter, 100, (), (), ());
    sl.clear_slices((), (), ());
    assert_eq!(bounds(&sl), vec![(0, 400, 48)]);
}

#[test]
fn onsets_become_slices_inside_loop_region() {
    let mut sl = empty_loop(1000);
    sl.loop_start = 100;
    sl.loop_end = 900;
    sl.apply_onsets(&vec![50, 250, -5, 0, 500, 950, 900], 0, (), (), ());
    assert_eq!(bounds(&sl), vec![(100, 250, 48), (250, 500, 49), (500, 1000, 50)]);
    assert_contiguous(&sl);
}

#[test]
fn onsets_are_pulled_earlier_by_pre_roll() {
    let mut sl = empty_loop(1000);
    sl.apply_onsets(&vec![10, 300, 650], 20, (), (), ());
    assert_eq!(bounds(&sl), vec![(0, 280, 48), (280, 630, 49), (630, 1000, 50)]);
}

#[test]
fn decoded_rex_slices_are_laid_end_to_end() {
    let sl: SliceLoop<(), (), ()> = SliceLoop::from_decoded_slices(&vec![100, 50, 80], 200, 48000, (), (), ());
    assert_eq!(sl.channels, 2);
    assert_eq!(sl.sample_rate, 48000);
    assert_eq!((sl.loop_start, sl.loop_end, sl.total_frames), (0, 200, 200));
    assert_eq!(bounds(&sl), vec![(0, 100, 48), (100, 150, 49), (150, 200, 50)]);
    let long: SliceLoop<(), (), ()> = SliceLoop::from_decoded_slices(&vec![10, 10], 100, 44100, (), (), ());
    assert_eq!(bounds(&long), vec![(0, 10, 48), (10, 100, 49)]);
}

#[test]
fn loop_region_and_length() {
    let mut sl = empty_loop(1000);
    sl.restore_loop_region(200, 0);
    assert_eq!((sl.loop_start, sl.loop_end), (200, 1000));
    assert_eq!(sl.loop_frames(), 800);
    sl.restore_loop_region(5000, 7000);
    assert_eq!((sl.loop_start, sl.loop_end), (1000, 1000));
    assert_eq!(sl.loop_frames(), 0);
    sl.restore_loop_region(10, 20);
    assert_eq!(sl.loop_frames(), 10);
    sl.loop_start = 30;
    assert_eq!(sl.loop_frames(), 0);
}

#[test]
fn preset_effect_settings() {
    let fx: SliceFx<u8> = SliceFx::restored(2, 0, 3, 4, 5, 7);
    assert_eq!(fx.filter_mode, FilterMode::Highpass);
    assert_eq!(fx.downsample_factor, 1);
    assert_eq!(fx.retrigger_rate, RetriggerRate::ThirtySecond);
    assert_eq!(fx.choke_group, 4);
    assert_eq!(fx.delay_rate, DelayRate::DottedEighth);
    assert_eq!(fx.levels, 7);
    let other: SliceFx<u8> = SliceFx::restored(9, 6, 9, 0, 42, 0);
    assert_eq!(other.filter_mode, FilterMode::Off);
    assert_eq!(other.downsample_factor, 6);
    assert_eq!(other.retrigger_rate, RetriggerRate::Off);
    assert_eq!(other.delay_rate, DelayRate::Off);
}

#[test]
fn preset_effect_settings_round_trip() {
    let fx: SliceFx<u8> = SliceFx {
        filter_mode: FilterMode::Bandpass,
        downsample_factor: 3,
        retrigger_rate: RetriggerRate::SixtyFourth,
        choke_group: 2,
        delay_rate: DelayRate::Half,
        levels: 9,
    };
    let back: SliceFx<u8> = SliceFx::restored(
        fx.filter_mode.to_code(),
        fx.downsample_factor,
        fx.retrigger_rate.to_code(),
        fx.choke_group,
        fx.delay_rate.to_code(),
        fx.levels,
    );
    assert_eq!(back.filter_mode, fx.filter_mode);
    assert_eq!(back.downsample_factor, fx.downsample_factor);
    assert_eq!(back.retrigger_rate, fx.retrigger_rate);
    assert_eq!(back.choke_group, fx.choke_group);
    assert_eq!(back.delay_rate, fx.delay_rate);
    assert_eq!(back.levels, fx.levels);
}

#[test]
fn loop_markers_keep_their_gap() {
    let mut sl = empty_loop(1000);
    sl.drag_loop_end(50);
    assert_eq!(sl.loop_end, 100);
    sl.drag_loop_end(5000);
    assert_eq!(sl.loop_end, 1000);
    sl.drag_loop_end(600);
    assert_eq!(sl.loop_end, 600);
    sl.drag_loop_start(550);
    assert_eq!(sl.loop_start, 500);
    sl.drag_loop_start(120);
    assert_eq!(sl.loop_start, 120);
    sl.drag_loop_end(0);
    assert_eq!(sl.loop_end, 220);
    let mut short = empty_loop(60);
    short.drag_loop_end(10);
    assert_eq!(short.loop_end, 60);
    short.drag_loop_start(30);
    assert_eq!(short.loop_start, 0);
    sl.reset_loop_region();
    assert_eq!((sl.loop_start, sl.loop_end), (0, 1000));
}

#[test]
fn clicks_select_the_slice_under_them() {
    let mut sl = empty_loop(400);
    sl.apply_grid(GridDivision::Quarter, 100, (), (), ());
    assert_eq!(sl.slice_at_frame(0), Some(0));
    assert_eq!(sl.slice_at_frame(99), Some(0));
    assert_eq!(sl.slice_at_frame(100), Some(1));
    assert_eq!(sl.slice_at_frame(399), Some(3));
    assert_eq!(sl.slice_at_frame(400), None);
}

#[test]
fn fade_handles_stop_at_half_the_slice() {
    let s: Slice<(), (), ()> = Slice::new(100, 300, 48, (), (), ());
    assert_eq!(s.fade_in_drag_frames(150), 50);
    assert_eq!(s.fade_in_drag_frames(280), 100);
    assert_eq!(s.fade_in_drag_frames(20), 0);
    assert_eq!(s.fade_out_drag_frames(260), 40);
    assert_eq!(s.fade_out_drag_frames(120), 100);
    assert_eq!(s.fade_out_drag_frames(900), 0);
}

#[test]
fn shuffle_swaps_move_notes_only() {
    let mut sl = empty_loop(800);
    sl.apply_grid(GridDivision::Quarter, 100, (), (), ());
    sl.shuffle_swap_notes(1, 6, false);
    assert_eq!(sl.slices[1].note, 54);
    assert_eq!(sl.slices[6].note, 49);
    assert_eq!((sl.slices[1].start, sl.slices[1].end), (100, 200));
    let before = bounds(&sl);
    sl.shuffle_swap_notes(4, 6, true);
    sl.shuffle_swap_notes(3, 3, false);
    assert_eq!(bounds(&sl), before);
    sl.shuffle_swap_notes(2, 7, true);
    assert_eq!((sl.slices[2].note, sl.slices[7].note), (55, 50));
    let mut notes: Vec<u8> = sl.slices.iter().map(|s| s.note).collect();
    notes.sort();
    assert_eq!(notes, (48..56).collect::<Vec<u8>>());
}
