use std::io::{Cursor, Read};
use slice_player::archive::{multisample_archive, ZoneAudio};
use slice_player::export::{multisample_xml, SampleZone};
use slice_player::wav::write_simple_wav;
use zip::{CompressionMethod, ZipArchive};

fn zone(pos: usize, frames: usize, pcm: Vec<i16>) -> ZoneAudio {
    ZoneAudio { zone: SampleZone { pos, frames, note: 60 + pos as u8 }, pcm }
}

#[test]
fn multisample_archive_is_stored_uncompressed() {
    let zones = vec![
        zone(0, 2, vec![1, 2, 3, 4]),
        zone(1, 3, Vec::new()),
        zone(2, 1, vec![-5, 5]),
    ];
    let bytes = multisample_archive(Some("Amen & Co"), &zones, 44100).unwrap();
    let mut ar = ZipArchive::new(Cursor::new(bytes)).unwrap();
    let names: Vec<String> = ar.file_names().map(|n| n.to_string()).collect();
    assert_eq!(ar.len(), 3);
    assert!(names.contains(&"sample_01.wav".to_string()));
    assert!(names.contains(&"sample_03.wav".to_string()));
    assert!(names.contains(&"multisample.xml".to_string()));
    for i in 0..ar.len() {
        let f = ar.by_index(i).unwrap();
        assert_eq!(f.compression(), CompressionMethod::Stored, "{} was compressed", f.name());
    }

    let mut wav = Vec::new();
    ar.by_name("sample_03.wav").unwrap().read_to_end(&mut wav).unwrap();
    let mut expected = Vec::new();
    write_simple_wav(&mut expected, &[-5, 5], 44100).unwrap();
    assert_eq!(wav, expected);

    let mut xml = String::new();
    ar.by_name("multisample.xml").unwrap().read_to_string(&mut xml).unwrap();
    let shapes = vec![SampleZone { pos: 0, frames: 2, note: 60 }, SampleZone { pos: 2, frames: 1, note: 62 }];
    assert_eq!(xml, multisample_xml(Some("Amen & Co"), &shapes));
    assert!(xml.contains("name=\"Amen &amp; Co\""));
}

#[test]
fn archive_without_zones_holds_only_the_index() {
    let bytes = multisample_archive(None, &Vec::new(), 48000).unwrap();
    let mut ar = ZipArchive::new(Cursor::new(bytes.clone())).unwrap();
    assert_eq!(ar.len(), 1);
    let mut xml = String::new();
    ar.by_index(0).unwrap().read_to_string(&mut xml).unwrap();
    assert_eq!(xml, multisample_xml(None, &Vec::new()));
    // The same zones give the same archive.
    assert_eq!(multisample_archive(None, &Vec::new(), 48000).unwrap(), bytes);
}
