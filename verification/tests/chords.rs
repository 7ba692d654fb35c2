use midi_daw::expand::{expand, RetrigPlan};
use midi_daw::notes::chord_note;
use midi_daw::types::{NoteDuration, NoteSlot, Step, TrackerCmd};

#[test]
fn chord_logic_corce() {
    for note in [0, 1, 2, 3, 127, 126, 125, 124] {
        let mut notes = Vec::new();

        let mut add_notes = |chord_notes: Vec<i8>| {
            notes.append(
                &mut chord_notes
                    .clone()
                    .into_iter()
                    .map(|note_offset| chord_note(note, note_offset))
                    .collect(),
            );
        };

        add_notes((i8::MIN..i8::MAX).collect());

        for (i, chord_note) in notes.into_iter().enumerate() {
            assert!(
                chord_note <= 127,
                "{chord_note} (ie. greater 127, the max note in midi). this happened when note was {note}, and offset was {}.",
                (i8::MIN..i8::MAX).collect::<Vec<i8>>()[i]
            );
        }
    }
}

#[test]
fn chord_full_cross_product_stays_in_range() {
    for note in 0u8..=127 {
        for off in i8::MIN..=i8::MAX {
            let n = chord_note(note, off);
            assert!(n <= 127, "note {note} offset {off} gave {n}");
        }
    }
}

#[test]
fn chord_negative_offset_wraps_from_127() {
    // Offset -5 on note 2 wraps to 127 - (5 - 2) = 124.
    assert_eq!(chord_note(2, -5), 124);
    // A small downward move stays direct.
    assert_eq!(chord_note(60, -5), 55);
    // A positive offset past 127 wraps from 0 upward.
    assert_eq!(chord_note(127, 2), 1);
    assert_eq!(chord_note(60, 7), 67);
}

fn note_step(note: u8, velocity: Option<u8>, cmd_a: TrackerCmd, cmd_b: TrackerCmd) -> Step {
    let mut st = Step::new();
    st.notes.push(NoteSlot { note, velocity, duration: NoteDuration::Sn(1) });
    st.cmd_a = cmd_a;
    st.cmd_b = cmd_b;
    st
}

#[test]
fn hold_for_one_extends_note_off_by_two_sixteenths() {
    // Step 0 holds a note for one extra step: one note event, its note-off
    // two sixteenths after the current tick.
    let st = note_step(60, Some(100), TrackerCmd::HoldFor { notes: 1 }, TrackerCmd::NoCmd);
    let ex = expand(&st, 0, 48);
    assert_eq!(ex.events.len(), 1);
    assert_eq!(ex.events[0].note, 60);
    assert_eq!(ex.events[0].off_tick, 2 * (48 / 4));
    assert!(!ex.panic);
}

#[test]
fn hold_for_zero_extends_by_half() {
    let st = note_step(60, None, TrackerCmd::HoldFor { notes: 0 }, TrackerCmd::NoCmd);
    let ex = expand(&st, 0, 48);
    assert_eq!(ex.events[0].off_tick, 12 + 6);
    // Velocity defaults to 85 where unset.
    assert_eq!(ex.events[0].velocity, 85);
}

#[test]
fn two_holds_take_the_larger() {
    let st = note_step(
        60,
        Some(90),
        TrackerCmd::HoldFor { notes: 2 },
        TrackerCmd::HoldFor { notes: 3 },
    );
    let ex = expand(&st, 100, 48);
    assert_eq!(ex.events[0].off_tick, 100 + 4 * 12);
}

#[test]
fn chord_expands_to_all_offsets() {
    let st = note_step(
        60,
        Some(90),
        TrackerCmd::Chord { chord: vec![3, 7] },
        TrackerCmd::NoCmd,
    );
    let ex = expand(&st, 0, 48);
    let notes: Vec<u8> = ex.events.iter().map(|e| e.note).collect();
    assert_eq!(notes, vec![60, 63, 67]);
}

#[test]
fn roll_wins_over_repeat_and_larger_count_wins() {
    let st = note_step(
        60,
        Some(90),
        TrackerCmd::Repeat { times: 3 },
        TrackerCmd::Roll { times: 2 },
    );
    let ex = expand(&st, 0, 48);
    assert_eq!(ex.retrig, Some(RetrigPlan { roll: true, times: 2, holding: false }));

    let st2 = note_step(
        60,
        Some(90),
        TrackerCmd::Roll { times: 2 },
        TrackerCmd::Roll { times: 5 },
    );
    let ex2 = expand(&st2, 0, 48);
    assert_eq!(ex2.retrig, Some(RetrigPlan { roll: true, times: 5, holding: false }));
}

#[test]
fn hold_beside_roll_marks_holding() {
    let st = note_step(
        60,
        Some(90),
        TrackerCmd::Roll { times: 2 },
        TrackerCmd::HoldFor { notes: 1 },
    );
    let ex = expand(&st, 0, 48);
    assert_eq!(ex.retrig, Some(RetrigPlan { roll: true, times: 2, holding: true }));
}

#[test]
fn panic_and_cc_pass_through_without_notes() {
    // A note-less step still carries its control change and panic.
    let mut st = Step::new();
    st.cmd_a = TrackerCmd::MidiCmd { cc_param: 7, arg: 100 };
    st.cmd_b = TrackerCmd::Panic;
    let ex = expand(&st, 0, 48);
    assert!(ex.events.is_empty());
    assert!(ex.panic);
    assert_eq!(ex.ccs.len(), 1);
    assert_eq!(ex.ccs[0].control, 7);
    assert_eq!(ex.ccs[0].value, 100);
}
