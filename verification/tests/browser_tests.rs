use slice_player::browser::{is_audio_file_name, is_rex_file_name, list_entries, lower_extension_of, sort_by_lower_name};
use slice_player::browser::{DirItem, FileBrowserState, FileEntry};

fn item(name: &str, is_dir: bool) -> DirItem {
    DirItem { name: name.to_string(), path: format!("/loops/{}", name), is_dir }
}

fn names(entries: &[FileEntry]) -> Vec<&str> {
    entries.iter().map(|e| e.name.as_str()).collect()
}

#[test]
fn extensions() {
    assert_eq!(lower_extension_of("Amen.WAV"), "wav");
    assert_eq!(lower_extension_of("break.loop.Flac"), "flac");
    assert_eq!(lower_extension_of(".wav"), "");
    assert_eq!(lower_extension_of("..wav"), "wav");
    assert_eq!(lower_extension_of("noext"), "");
    assert_eq!(lower_extension_of("trailing."), "");
    assert_eq!(lower_extension_of("\u{C4}.\u{C4}IFF"), "\u{E4}iff");
}

#[test]
fn audio_and_rex_names() {
    for n in ["a.wav", "a.AIF", "a.aiff", "a.flac", "a.mp3", "a.m4a", "a.aac", "a.opus", "a.OGG", "a.rx2", "a.rex", "a.rcy"] {
        assert!(is_audio_file_name(n), "{}", n);
    }
    for n in ["a.txt", "wav", ".wav", "a.wav.bak", "a.wa", "a."] {
        assert!(!is_audio_file_name(n), "{}", n);
    }
    assert!(is_rex_file_name("Think.RX2"));
    assert!(is_rex_file_name("x.rcy"));
    assert!(!is_rex_file_name("x.wav"));
}

#[test]
fn listing_puts_dirs_first_sorted_case_insensitively() {
    let listing = vec![
        item("zeta.wav", false),
        item("Drums", true),
        item("notes.txt", false),
        item("alpha.FLAC", false),
        item("bass", true),
        item("Beta.wav", false),
        item("ambient", true),
    ];
    let entries = list_entries(&listing);
    assert_eq!(names(&entries), vec!["ambient", "bass", "Drums", "alpha.FLAC", "Beta.wav", "zeta.wav"]);
    assert!(entries[..3].iter().all(|e| e.is_dir && !e.is_audio));
    assert!(entries[3..].iter().all(|e| !e.is_dir && e.is_audio));
    assert_eq!(entries[2].path, "/loops/Drums");
}

#[test]
fn equal_lowercase_names_keep_listing_order() {
    let listing = vec![item("B.wav", false), item("a.wav", false), item("b.wav", false), item("A.wav", false)];
    let entries = list_entries(&listing);
    assert_eq!(names(&entries), vec!["a.wav", "A.wav", "B.wav", "b.wav"]);
    let sorted = sort_by_lower_name(entries.clone());
    assert_eq!(names(&sorted), names(&entries));
}

#[test]
fn browser_state() {
    let mut st = FileBrowserState::new("/loops".to_string(), &vec![item("x.wav", false), item("sub", true)]);
    assert_eq!(st.current_dir, "/loops");
    assert_eq!(names(&st.entries), vec!["sub", "x.wav"]);
    assert!(st.selected_file.is_none() && st.auto_play && st.visible);
    st.selected_file = Some("/loops/x.wav".to_string());
    st.set_dir("/loops/sub".to_string(), &vec![item("deep.rx2", false)]);
    assert_eq!(st.current_dir, "/loops/sub");
    assert_eq!(names(&st.entries), vec!["deep.rx2"]);
    assert_eq!(st.selected_file.as_deref(), Some("/loops/x.wav"));
    st.refresh(&Vec::new());
    assert!(st.entries.is_empty());
    assert_eq!(st.current_dir, "/loops/sub");
}
