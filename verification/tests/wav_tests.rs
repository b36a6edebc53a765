use slice_player::layout::{Slice, SliceLoop};
use slice_player::wav::{acid_tempo_bits, write_simple_wav};

fn le32(x: u32) -> Vec<u8> {
    x.to_le_bytes().to_vec()
}

#[test]
fn simple_wav_layout() {
    let mut out = vec![0xAA];
    write_simple_wav(&mut out, &[1, -1, 256, -32768], 44100).unwrap();
    let mut expected = vec![0xAA];
    expected.extend_from_slice(b"RIFF");
    expected.extend(le32(36 + 8));
    expected.extend_from_slice(b"WAVEfmt ");
    expected.extend(le32(16));
    expected.extend_from_slice(&[1, 0, 2, 0]);
    expected.extend(le32(44100));
    expected.extend(le32(176400));
    expected.extend_from_slice(&[4, 0, 16, 0]);
    expected.extend_from_slice(b"data");
    expected.extend(le32(8));
    expected.extend_from_slice(&[1, 0, 0xFF, 0xFF, 0, 1, 0, 0x80]);
    assert_eq!(out, expected);
    assert_eq!(out.len(), 1 + 44 + 2 * 4);
}

#[test]
fn empty_wav_is_refused() {
    let mut out = vec![1, 2, 3];
    let r = write_simple_wav(&mut out, &[], 44100);
    assert_eq!(r, Err("Cannot write WAV file with 0 samples.".to_string()));
    assert_eq!(out, vec![1, 2, 3]);
}

fn marked_loop() -> SliceLoop<(), (), ()> {
    let mut sl = SliceLoop {
        channels: 2,
        sample_rate: 8000,
        total_frames: 400,
        loop_start: 50,
        loop_end: 350,
        slices: vec![
            Slice::new(0, 40, 48, (), (), ()),
            Slice::new(40, 100, 49, (), (), ()),
            Slice::new(100, 200, 50, (), (), ()),
            Slice::new(200, 300, 51, (), (), ()),
            Slice::new(300, 400, 52, (), (), ()),
        ],
    };
    sl.slices[3].muted = true;
    sl
}

#[test]
fn cue_markers() {
    assert_eq!(marked_loop().cue_positions(), vec![0, 50, 250]);
}

#[test]
fn sliced_wav_chunks() {
    let sl = marked_loop();
    let pcm = [7i16, -7];
    let beats = 8.0f32.to_bits();
    let tempo = 174.0f32.to_bits();
    let out = sl.sliced_wav_bytes(&pcm, beats, tempo);

    let mut cue = le32(3);
    for (i, pos) in [0u32, 50, 250].iter().enumerate() {
        cue.extend(le32(i as u32 + 1));
        cue.extend(le32(*pos));
        cue.extend_from_slice(b"data");
        cue.extend(le32(0));
        cue.extend(le32(0));
        cue.extend(le32(*pos));
    }
    let mut acid = le32(1);
    acid.extend_from_slice(&[60, 0, 0, 0]);
    acid.extend(le32(0));
    acid.extend(le32(beats));
    acid.extend_from_slice(&[4, 0, 4, 0]);
    acid.extend(le32(tempo));
    let mut list = b"adtl".to_vec();
    for i in 1..=3u32 {
        list.extend_from_slice(b"labl");
        list.extend(le32(12));
        list.extend(le32(i));
        list.extend_from_slice(format!("Slice {}\0", i).as_bytes());
    }

    let mut expected = b"RIFF".to_vec();
    expected.extend(le32(4 + 24 + (8 + 4) + (8 + cue.len() as u32) + 32 + (8 + list.len() as u32)));
    expected.extend_from_slice(b"WAVEfmt ");
    expected.extend(le32(16));
    expected.extend_from_slice(&[1, 0, 2, 0]);
    expected.extend(le32(8000));
    expected.extend(le32(32000));
    expected.extend_from_slice(&[4, 0, 16, 0]);
    expected.extend_from_slice(b"data");
    expected.extend(le32(4));
    expected.extend_from_slice(&[7, 0, 0xF9, 0xFF]);
    expected.extend_from_slice(b"cue ");
    expected.extend(le32(cue.len() as u32));
    expected.extend(cue);
    expected.extend_from_slice(b"acid");
    expected.extend(le32(24));
    expected.extend(acid);
    expected.extend_from_slice(b"LIST");
    expected.extend(le32(list.len() as u32));
    expected.extend(list);
    assert_eq!(out, expected);

    // The field read 20 bytes after the tag is the chunk's beat count.
    assert_eq!(acid_tempo_bits(&out).map(f32::from_bits), Some(8.0));
}

#[test]
fn ten_markers_get_even_labels() {
    let mut sl = SliceLoop {
        channels: 2,
        sample_rate: 8000,
        total_frames: 100,
        loop_start: 0,
        loop_end: 100,
        slices: Vec::new(),
    };
    for i in 0..10usize {
        sl.slices.push(Slice::new(i * 10, i * 10 + 10, 48 + i as u8, (), (), ()));
    }
    let out = sl.sliced_wav_bytes(&[0, 0], 0, 0);
    let needle = b"Slice 10\0\0";
    assert!(out.windows(needle.len()).any(|w| w == needle));
    let needle9 = b"labl\x0c\x00\x00\x00\x09\x00\x00\x00Slice 9\0";
    assert!(out.windows(needle9.len()).any(|w| w == needle9));
}

#[test]
fn acid_tempo_lookup() {
    assert_eq!(acid_tempo_bits(b""), None);
    assert_eq!(acid_tempo_bits(b"RIFF....WAVE"), None);
    let mut d = b"xxacid".to_vec();
    d.extend(vec![0u8; 16]);
    d.extend_from_slice(&[1, 2, 3, 4]);
    assert_eq!(acid_tempo_bits(&d), Some(0x04030201));
    d.truncate(d.len() - 1);
    assert_eq!(acid_tempo_bits(&d), None);
}
