use slice_player::params::{DelayRate, FilterMode, GridDivision, RetriggerRate, ShuffleStyle};

#[test]
fn labels() {
    assert_eq!(GridDivision::Quarter.label(), "1/4");
    assert_eq!(GridDivision::ThirtySecond.label(), "1/32");
    assert_eq!(FilterMode::Bandpass.label(), "Bandpass");
    assert_eq!(RetriggerRate::Off.label(), "Off");
    assert_eq!(RetriggerRate::SixtyFourth.label(), "1/64");
    assert_eq!(DelayRate::Ms.label(), "Free ms");
    assert_eq!(DelayRate::DottedEighth.label(), "3/16 Dotted");
    assert_eq!(DelayRate::DottedSixteenth.label(), "1/16 Dotted");
    assert_eq!(ShuffleStyle::GhostNotesOnly.label(), "Ghost Notes Only");
    assert_eq!(ShuffleStyle::WildChopper.label(), "Wild Chopper");
}

#[test]
fn retrigger_divisions() {
    assert_eq!(RetriggerRate::Off.division_factor(), 0);
    assert_eq!(RetriggerRate::Eighth.division_factor(), 8);
    assert_eq!(RetriggerRate::ThirtySecond.division_factor(), 32);
}

#[test]
fn grid_slice_frames_divide_the_beat() {
    assert_eq!(GridDivision::Quarter.slice_frames(22050), 22050);
    assert_eq!(GridDivision::Eighth.slice_frames(22051), 11025);
    assert_eq!(GridDivision::Sixteenth.slice_frames(15206), 3801);
    assert_eq!(GridDivision::ThirtySecond.slice_frames(7), 1);
    assert_eq!(GridDivision::ThirtySecond.slice_frames(0), 1);
}

#[test]
fn preset_codes_round_trip() {
    for m in [FilterMode::Off, FilterMode::Lowpass, FilterMode::Highpass, FilterMode::Bandpass] {
        assert_eq!(FilterMode::from_code(m.to_code()), m);
    }
    assert_eq!(FilterMode::Highpass.to_code(), 2);
    assert_eq!(FilterMode::from_code(42), FilterMode::Off);
    for r in [RetriggerRate::Off, RetriggerRate::Eighth, RetriggerRate::Sixteenth, RetriggerRate::ThirtySecond, RetriggerRate::SixtyFourth] {
        assert_eq!(RetriggerRate::from_code(r.to_code()), r);
    }
    assert_eq!(RetriggerRate::Sixteenth.to_code(), 2);
    assert_eq!(DelayRate::Half.to_code(), 7);
    assert_eq!(DelayRate::from_code(DelayRate::Quarter.to_code()), DelayRate::Quarter);
    assert_eq!(DelayRate::Ms.to_code(), 0);
    assert_eq!(DelayRate::from_code(DelayRate::Ms.to_code()), DelayRate::Off);
    assert_eq!(DelayRate::from_code(200), DelayRate::Off);
}
