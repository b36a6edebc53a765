use slice_player::text::{decimal_string, midi_note_name, push_decimal, sanitize_ascii, xml_escape};

#[test]
fn note_names() {
    assert_eq!(midi_note_name(48), "C3");
    assert_eq!(midi_note_name(60), "C4");
    assert_eq!(midi_note_name(61), "C#4");
    assert_eq!(midi_note_name(0), "C-1");
    assert_eq!(midi_note_name(11), "B-1");
    assert_eq!(midi_note_name(13), "C#0");
    assert_eq!(midi_note_name(24), "C1");
    assert_eq!(midi_note_name(66), "F#4");
    assert_eq!(midi_note_name(127), "G9");
    assert_eq!(midi_note_name(255), "D#20");
}

#[test]
fn decimals() {
    assert_eq!(decimal_string(0), "0");
    assert_eq!(decimal_string(7), "7");
    assert_eq!(decimal_string(10), "10");
    assert_eq!(decimal_string(88200), "88200");
    assert_eq!(decimal_string(usize::MAX), usize::MAX.to_string());
    let mut v: Vec<char> = vec!['x'];
    push_decimal(&mut v, 305);
    assert_eq!(v, vec!['x', '3', '0', '5']);
}

#[test]
fn sanitize_keeps_printable_ascii() {
    assert_eq!(sanitize_ascii("Amen Break 01"), "Amen Break 01");
    assert_eq!(sanitize_ascii("caf\u{e9}\u{a0}loop\t\u{7f}~"), "caf_ loop__~");
    assert_eq!(sanitize_ascii("\u{1F941}"), "_");
    assert_eq!(sanitize_ascii(""), "");
    for c in sanitize_ascii("\u{0}\u{1f}\u{80}\u{ff}ok\u{2603}").chars() {
        assert!((' '..='~').contains(&c));
    }
}

#[test]
fn escape_markup() {
    assert_eq!(xml_escape("a&b"), "a&amp;b");
    assert_eq!(xml_escape("<\"x\">"), "&lt;&quot;x&quot;&gt;");
    assert_eq!(xml_escape("it's"), "it&apos;s");
    assert_eq!(xml_escape("&lt;"), "&amp;lt;");
    assert_eq!(xml_escape("plain"), "plain");
    let e = xml_escape("<a href='x'>\"&\"</a>");
    assert!(!e.contains('<') && !e.contains('>') && !e.contains('"') && !e.contains('\''));
}
