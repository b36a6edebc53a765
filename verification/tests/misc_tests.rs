use slice_player::frames::{append_stereo, deinterleave, interleave};
use slice_player::layout::SliceLoop;
use slice_player::rex::{Rex2File, VLError, VLFileInfo, VLSliceInfo};
use slice_player::settings::{save_favorite, GlobalSettings};
use slice_player::signal::Polarity::{Negative as N, Positive as P, Unordered as U, Zero as Z};
use slice_player::signal::{Polarity, LEVEL_BOUND, SEARCH_WINDOW};

#[test]
fn default_settings_are_empty() {
    let s = GlobalSettings::default();
    assert!(s.favorites.iter().all(|f| f.is_none()));
    assert!(s.last_dir.is_none());
    assert!(s.default_export_dir.is_none());
}

#[test]
fn favourites_fill_first_empty_slot_then_slot_one() {
    let mut favs: [Option<String>; 5] = Default::default();
    favs[0] = Some("/a".to_string());
    favs[2] = Some("/c".to_string());
    save_favorite(&mut favs, &"/b".to_string());
    assert_eq!(favs[1].as_deref(), Some("/b"));
    save_favorite(&mut favs, &"/d".to_string());
    assert_eq!(favs[3].as_deref(), Some("/d"));
    save_favorite(&mut favs, &"/e".to_string());
    assert_eq!(favs[4].as_deref(), Some("/e"));
    save_favorite(&mut favs, &"/z".to_string());
    assert_eq!(
        favs.iter().map(|f| f.clone().unwrap()).collect::<Vec<_>>(),
        vec!["/z", "/b", "/c", "/d", "/e"]
    );
}

#[test]
fn decoder_status_codes() {
    assert_eq!(VLError::Success.code(), 0);
    assert_eq!(VLError::FileNotFound.code(), -3);
    assert_eq!(VLError::InvalidTempo.code(), -15);
    assert!(VLError::Success.is_ok());
    assert!(!VLError::FileCorrupt.is_ok());
    for c in -15..=0 {
        assert_eq!(VLError::from_code(c).unwrap().code(), c);
    }
    assert_eq!(VLError::from_code(1), None);
    assert_eq!(VLError::from_code(-16), None);
    assert_eq!(VLError::from_code(-4), Some(VLError::FileCorrupt));
}

#[test]
fn rex_loop_length() {
    let info = VLFileInfo::zeroed();
    assert_eq!(info.slice_count, 0);
    assert_eq!(info.total_frames, 0);
    let s = VLSliceInfo::zeroed();
    assert_eq!(s.sample_length, 0);
    let mut f = Rex2File { info };
    f.info.slice_count = 12;
    assert_eq!(f.slice_count(), 12);
    assert_eq!(f.loop_length(1000, Some(900)), 900);
    assert_eq!(f.loop_length(1000, Some(1200)), 1000);
    assert_eq!(f.loop_length(1000, None), 1000);
    f.info.total_frames = 800;
    assert_eq!(f.loop_length(1000, Some(900)), 800);
    f.info.total_frames = 5000;
    assert_eq!(f.loop_length(1000, None), 1000);
}

fn mono_loop(total: usize, channels: usize) -> SliceLoop<(), (), ()> {
    SliceLoop { channels, sample_rate: 44100, total_frames: total, loop_start: 0, loop_end: total, slices: Vec::new() }
}

#[test]
fn zero_crossing_search() {
    let pol: Vec<Polarity> = vec![P, P, N, N, Z, P, P, U, N, N];
    let sl = mono_loop(10, 1);
    assert_eq!(sl.find_zero_crossing_left(&pol, 9), 4);
    assert_eq!(sl.find_zero_crossing_left(&pol, 4), 2);
    assert_eq!(sl.find_zero_crossing_left(&pol, 2), 1);
    assert_eq!(sl.find_zero_crossing_left(&pol, 1), 0);
    assert_eq!(sl.find_zero_crossing_right(&pol, 0), 2);
    assert_eq!(sl.find_zero_crossing_right(&pol, 2), 4);
    assert_eq!(sl.find_zero_crossing_right(&pol, 5), 6);
    assert_eq!(sl.find_zero_crossing_right(&pol, 9), 10);
    assert_eq!(sl.find_zero_crossing_right(&Vec::new(), 3), 10);
    assert_eq!(sl.find_zero_crossing_left(&Vec::new(), 3), 0);
    // The second channel is ignored.
    let stereo: Vec<Polarity> = vec![P, N, P, N, N, P, N, P];
    let sl2 = mono_loop(4, 2);
    assert_eq!(sl2.find_zero_crossing_left(&stereo, 3), 2);
    assert_eq!(sl2.find_zero_crossing_right(&stereo, 0), 2);
}

#[test]
fn zero_crossing_window() {
    let n = SEARCH_WINDOW + 50;
    let mut pol = vec![P; n];
    pol[10] = N;
    let sl = mono_loop(n, 1);
    assert_eq!(sl.find_zero_crossing_left(&pol, 11), 10);
    assert_eq!(sl.find_zero_crossing_left(&pol, SEARCH_WINDOW + 11), 11);
    assert_eq!(sl.find_zero_crossing_left(&pol, SEARCH_WINDOW + 12), SEARCH_WINDOW + 11);
    assert_eq!(sl.find_zero_crossing_right(&pol, 0), 10);
    let none = vec![P; n];
    assert_eq!(sl.find_zero_crossing_right(&none, 5), 6);
}

#[test]
fn stereo_blocks() {
    let mut audio = vec![0];
    append_stereo(&mut audio, &[1, 2, 3], 1, 3);
    assert_eq!(audio, vec![0, 1, 1, 2, 2, 3, 3]);
    let mut a2 = Vec::new();
    append_stereo(&mut a2, &[1, 2, 3, 4, 5, 6], 3, 2);
    assert_eq!(a2, vec![1, 2, 4, 5]);
    let mut a3 = vec![9];
    append_stereo(&mut a3, &[1, 2], 0, 1);
    assert_eq!(a3, vec![9]);
}

#[test]
fn split_and_join_channels() {
    let audio = vec![1, -1, 2, -2, 3, -3, 4];
    let (l, r) = deinterleave(&audio, 10);
    assert_eq!(l, vec![1, 2, 3]);
    assert_eq!(r, vec![-1, -2, -3]);
    let (l2, r2) = deinterleave(&audio, 2);
    assert_eq!((l2.clone(), r2.clone()), (vec![1, 2], vec![-1, -2]));
    assert_eq!(interleave(&l, &r, 3), vec![1, -1, 2, -2, 3, -3]);
    assert_eq!(interleave(&l, &r, 1), vec![1, -1]);
}

#[test]
fn snapping_markers() {
    let pol: Vec<Polarity> = vec![P, P, N, N, Z, P, P, U, N, N];
    let mut levels: Vec<u32> = vec![9, 9, 9, 9, 9, 10, 3, 9, 9, 9];
    let sl = mono_loop(10, 1);
    // Two crossings equally near: the earlier wins.
    assert_eq!(sl.snap_to_zero_crossing(&pol, &levels, 3, 5), 2);
    assert_eq!(sl.snap_to_zero_crossing(&pol, &levels, 5, 5), 4);
    // No crossing in reach: the quietest frame.
    assert_eq!(sl.snap_to_zero_crossing(&pol, &levels, 6, 1), 6);
    levels[6] = 10;
    assert_eq!(sl.snap_to_zero_crossing(&pol, &levels, 6, 1), 5);
    levels[5] = LEVEL_BOUND;
    levels[6] = LEVEL_BOUND;
    assert_eq!(sl.snap_to_zero_crossing(&pol, &levels, 6, 1), 6);
    levels[5] = 0.25f32.to_bits();
    levels[6] = 0.5f32.to_bits();
    assert_eq!(sl.snap_to_zero_crossing(&pol, &levels, 6, 1), 5);
    // Nothing to search.
    assert_eq!(sl.snap_to_zero_crossing(&pol, &levels, 9, 0), 9);
    assert_eq!(sl.snap_to_zero_crossing(&pol, &levels, 12, 5), 12);
    assert_eq!(sl.snap_to_zero_crossing(&Vec::new(), &levels, 3, 5), 3);
}
