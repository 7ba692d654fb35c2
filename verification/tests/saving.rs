use midi_daw::persist::{decode_project, decode_sequence, encode_project, encode_sequence};
use midi_daw::sequencer::SequencerState;
use midi_daw::types::{MidiChannel, NoteDuration, NoteSlot, Sequence, TrackerCmd};

fn busy_sequence() -> Sequence {
    let mut sq = Sequence::new("lead √".to_string(), "Synth A".to_string(), MidiChannel::Ch3);
    sq.steps[0].notes.push(NoteSlot { note: 60, velocity: Some(100), duration: NoteDuration::Sn(1) });
    sq.steps[0].notes.push(NoteSlot { note: 64, velocity: None, duration: NoteDuration::Qn(2) });
    sq.steps[0].cmd_a = TrackerCmd::Chord { chord: vec![-5, 3, 7, -128, 127] };
    sq.steps[0].cmd_b = TrackerCmd::HoldFor { notes: 2 };
    sq.steps[3].notes.push(NoteSlot { note: 127, velocity: Some(1), duration: NoteDuration::S4n(4) });
    sq.steps[3].cmd_a = TrackerCmd::Roll { times: 3 };
    sq.steps[5].cmd_a = TrackerCmd::Panic;
    sq.steps[5].cmd_b = TrackerCmd::MidiCmd { cc_param: 74, arg: 42 };
    sq.steps[7].cmd_a = TrackerCmd::Swing { amt: 10 };
    sq.steps[7].cmd_b = TrackerCmd::Repeat { times: 2 };
    sq
}

fn assert_sequences_equal(a: &Sequence, b: &Sequence) {
    assert_eq!(a.name, b.name);
    assert_eq!(a.midi_dev, b.midi_dev);
    assert_eq!(a.channel, b.channel);
    assert_eq!(a.steps.len(), b.steps.len());
    for (x, y) in a.steps.iter().zip(b.steps.iter()) {
        assert_eq!(x.notes, y.notes);
        assert!(midi_daw::types::tracker_cmd_eq(&x.cmd_a, &y.cmd_a));
        assert!(midi_daw::types::tracker_cmd_eq(&x.cmd_b, &y.cmd_b));
    }
}

#[test]
fn save_then_load_yields_a_field_wise_equal_sequence() {
    let sq = busy_sequence();
    let text = encode_sequence(&sq);
    let back = decode_sequence(&text).expect("round trip must succeed");
    assert_sequences_equal(&back, &sq);
}

#[test]
fn default_sequence_round_trips_too() {
    let sq = Sequence::new("x".to_string(), "".to_string(), MidiChannel::Ch16);
    let back = decode_sequence(&encode_sequence(&sq)).unwrap();
    assert_sequences_equal(&back, &sq);
}

#[test]
fn project_round_trips() {
    let a = busy_sequence();
    let b = Sequence::new("pad".to_string(), "Synth B".to_string(), MidiChannel::Ch10);
    let text = encode_project(&vec![a, b]);
    let back = decode_project(&text).expect("project round trip must succeed");
    assert_eq!(back.len(), 2);
    assert_eq!(back[0].name, "lead √");
    assert_eq!(back[1].name, "pad");
}

#[test]
fn loading_a_project_puts_every_sequence_in_the_map() {
    let a = busy_sequence();
    let b = Sequence::new("pad".to_string(), "Synth B".to_string(), MidiChannel::Ch10);
    let text: String = encode_project(&vec![a.clone(), b]);

    let mut s = SequencerState::new();
    s.new_sequence(Some("kept".to_string()), None, None);
    s.load_project_data(&text).unwrap();
    let names = s.get_sequences();
    assert!(names.iter().any(|n| n == "kept"));
    assert!(names.iter().any(|n| n == "lead √"));
    assert!(names.iter().any(|n| n == "pad"));
    assert_sequences_equal(&s.get_sequence(&"lead √".to_string()).unwrap(), &a);
    assert!(s.load_project_data(&"not a project".to_string()).is_err());
}

#[test]
fn project_load_takes_the_last_of_a_duplicated_name() {
    let first = Sequence::new("dup".to_string(), "A".to_string(), MidiChannel::Ch2);
    let second = Sequence::new("dup".to_string(), "B".to_string(), MidiChannel::Ch9);
    let text = encode_project(&vec![first, second]);

    let mut s = SequencerState::new();
    s.load_project_data(&text).unwrap();
    assert_eq!(s.get_sequences(), vec!["dup".to_string()]);
    let winner = s.get_sequence(&"dup".to_string()).unwrap();
    assert_eq!(winner.midi_dev, "B");
    assert_eq!(winner.channel, MidiChannel::Ch9);
}

#[test]
fn garbage_is_refused() {
    assert!(decode_sequence(&"".to_string()).is_none());
    assert!(decode_sequence(&"hello world".to_string()).is_none());
    assert!(decode_sequence(&"000000000000000000005ahem".to_string()).is_none());
    assert!(decode_project(&"12".to_string()).is_none());
    // Trailing garbage after a valid sequence is refused whole.
    let mut text = encode_sequence(&busy_sequence());
    text.push('x');
    assert!(decode_sequence(&text).is_none());
}

#[test]
fn saved_text_is_plain_digits_and_tags() {
    let sq = Sequence::new("ab".to_string(), "cd".to_string(), MidiChannel::Ch1);
    let text = encode_sequence(&sq);
    // name length, name, device length, device, channel, step count, steps...
    assert!(text.starts_with("00000000000000000002ab00000000000000000002cd000"));
}
