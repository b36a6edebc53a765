use slice_player::export::{multisample_xml, reverse_frames, sample_file_name, ExportRegion, NoteRegion, SampleZone};
use slice_player::layout::{Slice, SliceLoop};

fn layout(loop_start: usize, loop_end: usize, bounds: &[(usize, usize, u8)]) -> SliceLoop<(), (), ()> {
    SliceLoop {
        channels: 2,
        sample_rate: 44100,
        total_frames: 1000,
        loop_start,
        loop_end,
        slices: bounds.iter().map(|&(s, e, n)| Slice::new(s, e, n, (), (), ())).collect(),
    }
}

#[test]
fn regions_are_clipped_to_loop() {
    let mut sl = layout(150, 700, &[(0, 100, 48), (100, 300, 49), (300, 500, 50), (500, 800, 51), (800, 1000, 52)]);
    sl.slices[2].muted = true;
    assert_eq!(
        sl.export_regions(),
        vec![ExportRegion { index: 1, start: 150, end: 300 }, ExportRegion { index: 3, start: 500, end: 700 }]
    );
    assert_eq!(
        sl.midi_note_regions(),
        vec![NoteRegion { note: 49, rel_start: 0, rel_end: 150 }, NoteRegion { note: 51, rel_start: 350, rel_end: 550 }]
    );
    assert_eq!(sl.multisample_regions().unwrap().len(), 2);
}

#[test]
fn no_active_slices_is_an_error() {
    let mut sl = layout(0, 1000, &[(0, 500, 48), (500, 1000, 49)]);
    sl.slices[0].muted = true;
    sl.slices[1].muted = true;
    assert_eq!(sl.multisample_regions(), Err("No active slices within loop markers to export.".to_string()));
    let empty = layout(0, 1000, &[]);
    assert!(empty.export_regions().is_empty());
}

#[test]
fn reversing_frames() {
    let mut pcm = vec![1, 2, 3, 4, 5, 6];
    reverse_frames(&mut pcm);
    assert_eq!(pcm, vec![5, 6, 3, 4, 1, 2]);
    let mut odd = vec![1, 2, 3, 4, 9];
    reverse_frames(&mut odd);
    assert_eq!(odd, vec![3, 4, 1, 2, 9]);
    let original = vec![10i16, -10, 20, -20, 30, -30, 40, -40];
    let mut twice = original.clone();
    reverse_frames(&mut twice);
    assert_eq!(twice, vec![40, -40, 30, -30, 20, -20, 10, -10]);
    reverse_frames(&mut twice);
    assert_eq!(twice, original);
}

#[test]
fn sample_file_names() {
    assert_eq!(sample_file_name(0), "sample_01.wav");
    assert_eq!(sample_file_name(8), "sample_09.wav");
    assert_eq!(sample_file_name(9), "sample_10.wav");
    assert_eq!(sample_file_name(149), "sample_150.wav");
}

#[test]
fn multisample_index() {
    let zones = vec![SampleZone { pos: 0, frames: 22050, note: 49 }, SampleZone { pos: 100, frames: 7, note: 127 }];
    let xml = multisample_xml(Some("My \"Amen\" <loop>"), &zones);
    let expected = String::new()
        + "<?xml version=\"1.0\" encoding=\"UTF-8\"?><multisample name=\"My &quot;Amen&quot; &lt;loop&gt;\">\n"
        + "   <generator>SlicePlayer 1.0</generator>\n"
        + "   <category>Sample Slices</category>\n"
        + "   <creator>Aura SlicePlayer</creator>\n"
        + "   <group color=\"ff8800\" name=\"Slices\"/>\n"
        + "   <sample file=\"sample_01.wav\" gain=\"0.00\" group=\"0\" parameter-1=\"0.0000\" parameter-2=\"0.0000\" parameter-3=\"0.0000\" reverse=\"false\" sample-start=\"0.000\" sample-stop=\"22050.000\" zone-logic=\"always-play\">\n"
        + "      <key high=\"49\" low=\"49\" root=\"49\" track=\"0.0000\" tune=\"0.00\"/>\n"
        + "      <velocity high=\"127\" low=\"0\"/>\n"
        + "      <select/>\n"
        + "      <loop fade=\"0.0000\" mode=\"off\" start=\"0.000\" stop=\"22050.000\"/>\n"
        + "   </sample>\n"
        + "   <sample file=\"sample_101.wav\" gain=\"0.00\" group=\"0\" parameter-1=\"0.0000\" parameter-2=\"0.0000\" parameter-3=\"0.0000\" reverse=\"false\" sample-start=\"0.000\" sample-stop=\"7.000\" zone-logic=\"always-play\">\n"
        + "      <key high=\"127\" low=\"127\" root=\"127\" track=\"0.0000\" tune=\"0.00\"/>\n"
        + "      <velocity high=\"127\" low=\"0\"/>\n"
        + "      <select/>\n"
        + "      <loop fade=\"0.0000\" mode=\"off\" start=\"0.000\" stop=\"7.000\"/>\n"
        + "   </sample>\n"
        + "</multisample>\n";
    assert_eq!(xml, expected);
    let unnamed = multisample_xml(None, &Vec::new());
    assert!(unnamed.starts_with("<?xml version=\"1.0\" encoding=\"UTF-8\"?><multisample name=\"SlicePlayer Loop\">\n"));
    assert!(unnamed.ends_with("name=\"Slices\"/>\n</multisample>\n"));
    let accented = multisample_xml(Some("Caf\u{e9}"), &Vec::new());
    assert!(accented.contains("name=\"Caf_\""));
}

#[test]
fn zones_are_keyed_to_their_slices_notes() {
    let mut sl = layout(0, 200, &[(0, 100, 48), (100, 200, 49)]);
    sl.slices[0].muted = true;
    let zones = sl.multisample_zones().unwrap();
    assert_eq!(zones, vec![SampleZone { pos: 0, frames: 100, note: 49 }]);
    let xml = multisample_xml(None, &zones);
    assert!(xml.contains("<sample file=\"sample_01.wav\""));
    assert!(xml.contains("<key high=\"49\" low=\"49\" root=\"49\" track=\"0.0000\" tune=\"0.00\"/>"));
    sl.slices[1].muted = true;
    assert_eq!(sl.multisample_zones(), Err("No active slices within loop markers to export.".to_string()));
}
