use slice_player::transport::Transport;

fn preview(t: &mut Transport<f32>, frames: usize, start: usize, end: usize, total: usize) -> Vec<usize> {
    let mut read = vec![99, 99];
    t.advance_preview(frames, start, end, total, &mut read);
    read
}

fn audition(t: &mut Transport<f32>, frames: usize) -> (Vec<usize>, Option<Vec<f32>>) {
    let mut read = vec![99];
    let ended = t.advance_audition(frames, &mut read);
    (read, ended)
}

#[test]
fn preview_wraps_round_the_loop_region() {
    let mut t: Transport<f32> = Transport::new();
    assert!(!t.is_previewing() && !t.is_auditioning());
    assert!(preview(&mut t, 4, 2, 6, 10).is_empty());
    t.play_preview();
    assert!(t.is_previewing());
    assert_eq!(preview(&mut t, 5, 2, 6, 10), vec![2, 3, 4, 5, 2]);
    assert_eq!(t.preview_playhead, Some(3));
    assert_eq!(preview(&mut t, 3, 2, 6, 10), vec![3, 4, 5]);
    assert_eq!(t.preview_playhead, Some(2));
    // The region is cut at the end of the audio.
    assert_eq!(preview(&mut t, 4, 2, 50, 4), vec![2, 3, 2, 3]);
    // An empty region stops the preview.
    assert!(preview(&mut t, 4, 6, 6, 10).is_empty());
    assert!(!t.is_previewing());
}

#[test]
fn preview_blocks_join_up() {
    let mut a: Transport<f32> = Transport::new();
    let mut b: Transport<f32> = Transport::new();
    a.play_preview();
    b.play_preview();
    let mut joined = preview(&mut a, 7, 100, 110, 1000);
    joined.extend(preview(&mut a, 9, 100, 110, 1000));
    assert_eq!(joined, preview(&mut b, 16, 100, 110, 1000));
    assert_eq!(a.preview_playhead, b.preview_playhead);
    assert_eq!(a.preview_playhead, Some(106));
}

#[test]
fn audition_plays_once() {
    let mut t: Transport<f32> = Transport::new();
    t.play_preview();
    let pcm = vec![0.1, 0.2, 0.3, 0.4, 0.5, 0.6, 0.7];
    t.play_audition(pcm.clone());
    assert!(!t.is_previewing() && t.is_auditioning());
    assert_eq!(audition(&mut t, 2), (vec![0, 1], None));
    assert!(t.is_auditioning());
    assert_eq!(audition(&mut t, 2), (vec![2], Some(pcm)));
    assert!(!t.is_auditioning());
    assert_eq!(audition(&mut t, 2), (vec![], None));

    t.play_audition(vec![0.0; 6]);
    assert_eq!(audition(&mut t, 3), (vec![0, 1, 2], None));
    assert!(t.is_auditioning());
    assert_eq!(audition(&mut t, 1), (vec![], Some(vec![0.0; 6])));
    assert!(!t.is_auditioning());
}

#[test]
fn starting_one_stops_the_other() {
    let mut t: Transport<f32> = Transport::new();
    t.play_audition(vec![0.0; 4]);
    t.play_preview();
    assert!(t.is_previewing() && !t.is_auditioning());
    assert_eq!(t.preview_playhead, Some(0));
    t.play_audition(vec![0.0; 4]);
    t.stop_audition();
    assert!(!t.is_previewing() && !t.is_auditioning());
    t.play_preview();
    t.stop_preview();
    assert!(!t.is_previewing());
    t.play_preview();
    t.stop();
    assert!(!t.is_previewing() && !t.is_auditioning());
}

#[test]
fn host_transport_start_stops_preview() {
    let mut t: Transport<f32> = Transport::new();
    t.play_preview();
    t.follow_host(true, true);
    assert!(t.is_previewing());
    t.follow_host(false, false);
    assert!(t.is_previewing());
    t.follow_host(true, false);
    assert!(t.is_previewing());
    t.follow_host(false, true);
    assert!(!t.is_previewing());
    t.play_audition(vec![0.0; 2]);
    t.follow_host(false, true);
    assert!(!t.is_auditioning());
}
