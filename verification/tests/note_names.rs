use midi_daw::notes::{display_midi_note, note_from_str};
use midi_daw::types::MidiChannel;

#[test]
fn note_display() {
    assert_eq!(display_midi_note(60), "C-4");
}

#[test]
fn display_covers_accidentals_and_octaves() {
    assert_eq!(display_midi_note(61), "C#4");
    assert_eq!(display_midi_note(12), "C-0");
    assert_eq!(display_midi_note(127), "G-9");
    assert_eq!(display_midi_note(33), "A-1");
}

#[test]
fn note_names_parse() {
    // Letter, accidental and octave: offset + 12 per octave, one octave up.
    assert_eq!(note_from_str("c4".to_string()), Some(60));
    assert_eq!(note_from_str("C#4".to_string()), Some(61));
    assert_eq!(note_from_str("db4".to_string()), Some(61));
    assert_eq!(note_from_str("A 2".to_string()), Some(45));
    // A missing octave falls back to octave one.
    assert_eq!(note_from_str("c".to_string()), Some(24));
    // Unparseable octave digits fall back to octave one too.
    assert_eq!(note_from_str("c999".to_string()), Some(24));
    // Impossible spellings name no note.
    assert_eq!(note_from_str("b#4".to_string()), None);
    assert_eq!(note_from_str("cb4".to_string()), None);
    assert_eq!(note_from_str("e#1".to_string()), None);
    assert_eq!(note_from_str("x4".to_string()), None);
    assert_eq!(note_from_str("".to_string()), None);
    // A name beyond the MIDI range names no note.
    assert_eq!(note_from_str("b9".to_string()), None);
    assert_eq!(note_from_str("c10".to_string()), None);
    assert_eq!(note_from_str("g9".to_string()), Some(127));
}

#[test]
fn channels_from_numbers_and_hex() {
    assert_eq!(MidiChannel::from_int(1), MidiChannel::Ch1);
    assert_eq!(MidiChannel::from_int(16), MidiChannel::Ch16);
    // Out-of-range numbers fall back to channel 1.
    assert_eq!(MidiChannel::from_int(0), MidiChannel::Ch1);
    assert_eq!(MidiChannel::from_int(17), MidiChannel::Ch1);
    assert_eq!(MidiChannel::from_int(-3), MidiChannel::Ch1);

    assert_eq!(MidiChannel::from_hex("0".to_string()), MidiChannel::Ch1);
    assert_eq!(MidiChannel::from_hex("f".to_string()), MidiChannel::Ch16);
    assert_eq!(MidiChannel::from_hex("0xA".to_string()), MidiChannel::Ch11);
    assert_eq!(MidiChannel::from_hex("0x3".to_string()), MidiChannel::Ch4);
    assert_eq!(MidiChannel::from_hex("zz".to_string()), MidiChannel::Ch1);
    assert_eq!(MidiChannel::from_hex("".to_string()), MidiChannel::Ch1);
}

#[test]
fn channels_print_their_number() {
    assert_eq!(MidiChannel::Ch1.__str__(), "1");
    assert_eq!(MidiChannel::Ch10.__str__(), "10");
    assert_eq!(MidiChannel::Ch16.__str__(), "16");
    assert_eq!(MidiChannel::default(), MidiChannel::Ch1);
}
