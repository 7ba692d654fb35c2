use midi_daw::sequencer::{SequencerControlCmd, SequencerEffect, SequencerError, SequencerState};
use midi_daw::types::{MidiChannel, NoteDuration};

fn state_with(names: &[&str]) -> SequencerState {
    let mut s = SequencerState::new();
    for n in names {
        s.new_sequence(Some(n.to_string()), Some("dev".to_string()), Some(MidiChannel::Ch1));
    }
    s
}

fn names_of(s: &SequencerState) -> Vec<String> {
    s.get_sequences()
}

#[test]
fn rename_is_atomic_and_migrates_play_state() {
    let mut s = state_with(&["kick", "snare"]);
    s.play(&vec!["kick".to_string()]);
    // Reach a step boundary so the queued sequence starts playing.
    s.step_tick(48);
    assert!(s.playing.iter().any(|n| n == "kick"));

    s.rename_sequence(&"kick".to_string(), &"boom".to_string()).unwrap();
    let names = names_of(&s);
    assert!(!names.iter().any(|n| n == "kick"));
    assert!(names.iter().any(|n| n == "boom"));
    assert!(!s.playing.iter().any(|n| n == "kick"));
    assert!(s.playing.iter().any(|n| n == "boom"));
}

#[test]
fn rm_while_playing_purges_every_set() {
    let mut s = state_with(&["kick"]);
    s.play(&vec!["kick".to_string()]);
    s.step_tick(48);
    s.queue_stop(&vec!["kick".to_string()]);
    assert!(s.playing.iter().any(|n| n == "kick"));

    s.rm_sequence(&"kick".to_string());
    assert!(!names_of(&s).iter().any(|n| n == "kick"));
    assert!(!s.playing.iter().any(|n| n == "kick"));
    assert!(!s.queued.iter().any(|n| n == "kick"));
    assert!(!s.queued_stop.iter().any(|n| n == "kick"));

    // Later ticks never reference it again.
    for _ in 0..100 {
        let out = s.step_tick(48);
        assert!(out.struck.is_empty());
    }
}

#[test]
fn change_len_never_drops_below_one() {
    let mut s = state_with(&["kick"]);
    // Truncating past the floor is refused whole: sixteen steps remain.
    s.change_len_by(&"kick".to_string(), -100).unwrap();
    assert_eq!(s.get_sequence(&"kick".to_string()).unwrap().steps.len(), 16);
    // Truncating to exactly one step is allowed.
    s.change_len_by(&"kick".to_string(), -15).unwrap();
    assert_eq!(s.get_sequence(&"kick".to_string()).unwrap().steps.len(), 1);
    s.change_len_by(&"kick".to_string(), -1).unwrap();
    assert_eq!(s.get_sequence(&"kick".to_string()).unwrap().steps.len(), 1);
    // Growing appends empty steps.
    s.change_len_by(&"kick".to_string(), 3).unwrap();
    assert_eq!(s.get_sequence(&"kick".to_string()).unwrap().steps.len(), 4);
}

#[test]
fn add_note_replaces_and_rm_note_absent_is_noop() {
    let mut s = state_with(&["kick"]);
    let name = "kick".to_string();
    s.add_note(&name, 0, 60, 100, None).unwrap();
    s.add_note(&name, 0, 60, 50, Some(NoteDuration::Qn(1))).unwrap();
    let seq = s.get_sequence(&name).unwrap();
    // Replaced in place, never duplicated.
    assert_eq!(seq.steps[0].notes.len(), 1);
    assert_eq!(seq.steps[0].notes[0].note, 60);
    assert_eq!(seq.steps[0].notes[0].velocity, Some(50));
    assert_eq!(seq.steps[0].notes[0].duration, NoteDuration::Qn(1));

    // Removing an absent note changes nothing.
    s.rm_note(&name, 0, 61).unwrap();
    let seq2 = s.get_sequence(&name).unwrap();
    assert_eq!(seq2.steps[0].notes.len(), 1);
    // Removing the present note empties the step.
    s.rm_note(&name, 0, 60).unwrap();
    let seq3 = s.get_sequence(&name).unwrap();
    assert!(seq3.steps[0].notes.is_empty());
}

#[test]
fn play_then_stop_before_any_tick_never_reaches_playing() {
    let mut s = state_with(&["kick"]);
    let kick = vec!["kick".to_string()];
    s.play(&kick);
    s.stop(&kick);
    assert!(s.playing.is_empty());
    assert!(s.queued.is_empty());
    // The sequence itself is untouched.
    assert!(names_of(&s).iter().any(|n| n == "kick"));
    // The next boundary starts nothing.
    let out = s.step_tick(48);
    assert!(s.playing.is_empty());
    assert!(!out.sync);
}

#[test]
fn unknown_names_are_reported_not_queued() {
    let mut s = state_with(&["kick"]);
    let unknown = s.play(&vec!["kick".to_string(), "ghost".to_string()]);
    assert_eq!(unknown.len(), 1);
    assert_eq!(unknown[0], "ghost");
    assert!(s.queued.iter().any(|n| n == "kick"));
    assert!(!s.queued.iter().any(|n| n == "ghost"));
}

#[test]
fn errors_name_their_causes() {
    let mut s = state_with(&["kick"]);
    let ghost = "ghost".to_string();
    let kick = "kick".to_string();
    assert_eq!(s.add_note(&ghost, 0, 60, 100, None), Err(SequencerError::UnknownSequence));
    assert_eq!(s.add_note(&kick, 16, 60, 100, None), Err(SequencerError::InvalidStep));
    assert_eq!(s.add_note(&kick, 0, 200, 100, None), Err(SequencerError::InvalidNote));
    assert_eq!(s.rm_note(&ghost, 0, 60), Err(SequencerError::UnknownSequence));
    assert_eq!(s.rm_note(&kick, 99, 60), Err(SequencerError::InvalidStep));
    assert_eq!(s.set_sequence_dev(&ghost, "d".to_string()), Err(SequencerError::UnknownSequence));
    assert_eq!(
        s.rename_sequence(&ghost, &"x".to_string()),
        Err(SequencerError::UnknownSequence)
    );
    assert_eq!(s.change_len_by(&ghost, 1), Err(SequencerError::UnknownSequence));
    assert_eq!(
        s.load_sequence_data(&"not a saved sequence".to_string()),
        Err(SequencerError::BadSaveData)
    );
}

#[test]
fn stop_all_resets_the_tick_counter() {
    let mut s = state_with(&["kick"]);
    s.play(&vec!["kick".to_string()]);
    for _ in 0..5 {
        s.step_tick(48);
    }
    assert!(s.tick > 0);
    s.stop_all();
    assert_eq!(s.tick, 0);
    assert!(s.playing.is_empty() && s.queued.is_empty());
}

#[test]
fn playback_strikes_and_releases_on_schedule() {
    let mut s = state_with(&["kick"]);
    let name = "kick".to_string();
    s.add_note(&name, 0, 60, 100, None).unwrap();
    s.play(&vec![name.clone()]);

    // Tick 0 is a step boundary: the queued sequence starts and strikes.
    let out0 = s.step_tick(48);
    assert!(out0.sync);
    let struck: Vec<_> = out0
        .struck
        .iter()
        .filter(|m| matches!(m.msg, midi_daw::types::MidiMsg::PlayNote { note: 60, .. }))
        .collect();
    assert_eq!(struck.len(), 1);
    assert_eq!(struck[0].midi_dev, "dev");

    // The note-off lands one sixteenth (twelve ticks) later.
    let mut released_at = None;
    for t in 1..=13u64 {
        let out = s.step_tick(48);
        if out.released.iter().any(
            |m| matches!(m.msg, midi_daw::types::MidiMsg::StopNote { note: 60 }),
        ) {
            released_at = Some(t);
            break;
        }
    }
    assert_eq!(released_at, Some(12));
}

#[test]
fn sequences_of_different_lengths_drift() {
    let mut s = state_with(&["a", "b"]);
    let a = "a".to_string();
    let b = "b".to_string();
    s.change_len_by(&a, -14).unwrap();  // two steps
    s.add_note(&a, 1, 61, 100, None).unwrap();
    s.add_note(&b, 2, 62, 100, None).unwrap();
    s.play(&vec![a, b]);

    // Step counter 1 (ticks 12..): the two-step loop plays its second step.
    let mut hits_61 = 0;
    let mut hits_62 = 0;
    for _ in 0..48 {
        let out = s.step_tick(48);
        for m in &out.struck {
            if matches!(m.msg, midi_daw::types::MidiMsg::PlayNote { note: 61, .. }) {
                hits_61 += 1;
            }
            if matches!(m.msg, midi_daw::types::MidiMsg::PlayNote { note: 62, .. }) {
                hits_62 += 1;
            }
        }
    }
    // Over one bar of 48 ticks (4 steps): the two-step loop hits twice,
    // the sixteen-step loop once.
    assert_eq!(hits_61, 2);
    assert_eq!(hits_62, 1);
}

#[test]
fn apply_cmd_routes_queries_and_persistence() {
    let mut s = state_with(&["kick"]);
    match s.apply_cmd(SequencerControlCmd::GetSequences).unwrap() {
        SequencerEffect::Names(names) => assert_eq!(names, vec!["kick".to_string()]),
        other => panic!("unexpected effect {other:?}"),
    }
    match s.apply_cmd(SequencerControlCmd::SaveSequence { sequence: "kick".to_string() }).unwrap()
    {
        SequencerEffect::WriteSequenceFile { name, contents } => {
            assert_eq!(name, "kick");
            let mut t = SequencerState::new();
            t.load_sequence_data(&contents).unwrap();
            assert!(t.get_sequences().iter().any(|n| n == "kick"));
        },
        other => panic!("unexpected effect {other:?}"),
    }
    assert!(matches!(
        s.apply_cmd(SequencerControlCmd::SaveSequence { sequence: "ghost".to_string() }),
        Err(SequencerError::UnknownSequence)
    ));
}

#[test]
fn fresh_sequences_have_empty_command_slots() {
    let mut s = state_with(&["kick"]);
    let seq = s.get_sequence(&"kick".to_string()).unwrap();
    assert_eq!(seq.steps.len(), 16);
    for st in &seq.steps {
        assert!(st.notes.is_empty());
        assert!(matches!(st.cmd_a, midi_daw::types::TrackerCmd::NoCmd));
        assert!(matches!(st.cmd_b, midi_daw::types::TrackerCmd::NoCmd));
    }
    // The same holds for a sequence made through the command surface.
    s.apply_cmd(SequencerControlCmd::NewSequence {
        name: Some("pad".to_string()),
        midi_dev: None,
        channel: None,
    })
    .unwrap();
    let pad = s.get_sequence(&"pad".to_string()).unwrap();
    assert_eq!(pad.midi_dev, "MIDI THRU");
    assert_eq!(pad.channel, MidiChannel::Ch1);
    for st in &pad.steps {
        assert!(st.notes.is_empty());
        assert!(matches!(st.cmd_a, midi_daw::types::TrackerCmd::NoCmd));
        assert!(matches!(st.cmd_b, midi_daw::types::TrackerCmd::NoCmd));
    }
}

#[test]
fn binary_sync_fires_on_thirtysecond_boundaries() {
    let mut s = state_with(&["kick"]);
    s.play(&vec!["kick".to_string()]);
    // PPQ 48: a thirty-second note spans six ticks, so the binary tick goes
    // out on every sixth pulse while the sequence plays.
    let mut fired = Vec::new();
    for t in 0u64..13 {
        let out = s.step_tick(48);
        if out.sync {
            fired.push(t);
        }
    }
    assert_eq!(fired, vec![0, 6, 12]);
    // Silence once nothing plays: no sync pulses at all.
    s.stop_all();
    for _ in 0..13 {
        assert!(!s.step_tick(48).sync);
    }
}

#[test]
fn persistence_commands_decide_their_file_effects() {
    let mut s = state_with(&["kick"]);
    assert!(matches!(
        s.apply_cmd(SequencerControlCmd::ListSavedSequences).unwrap(),
        SequencerEffect::ListSequenceFiles
    ));
    assert!(matches!(
        s.apply_cmd(SequencerControlCmd::ListSavedProjects).unwrap(),
        SequencerEffect::ListProjectFiles
    ));
    match s.apply_cmd(SequencerControlCmd::RmSavedSequence { sequence: "old".to_string() }) {
        Ok(SequencerEffect::RmSequenceFile { name }) => assert_eq!(name, "old"),
        other => panic!("unexpected outcome {other:?}"),
    }
    match s.apply_cmd(SequencerControlCmd::RmSavedProject { project_name: "p".to_string() }) {
        Ok(SequencerEffect::RmProjectFile { name }) => assert_eq!(name, "p"),
        other => panic!("unexpected outcome {other:?}"),
    }
    match s.apply_cmd(SequencerControlCmd::LoadSequence { sequence: "kick".to_string() }) {
        Ok(SequencerEffect::ReadSequenceFile { name }) => assert_eq!(name, "kick"),
        other => panic!("unexpected outcome {other:?}"),
    }
    // None of these touches the live state.
    assert_eq!(names_of(&s), vec!["kick".to_string()]);
}

#[test]
fn apply_cmd_fills_and_clears_command_slots() {
    let mut s = state_with(&["kick"]);
    let roll = midi_daw::types::TrackerCmd::Roll { times: 2 };
    let hold = midi_daw::types::TrackerCmd::HoldFor { notes: 1 };
    s.apply_cmd(SequencerControlCmd::AddCmd {
        sequence: "kick".to_string(),
        step: 0,
        cmd: roll.clone(),
    })
    .unwrap();
    s.apply_cmd(SequencerControlCmd::AddCmd {
        sequence: "kick".to_string(),
        step: 0,
        cmd: hold.clone(),
    })
    .unwrap();
    let seq = s.get_sequence(&"kick".to_string()).unwrap();
    assert!(midi_daw::types::tracker_cmd_eq(&seq.steps[0].cmd_a, &roll));
    assert!(midi_daw::types::tracker_cmd_eq(&seq.steps[0].cmd_b, &hold));

    // Removing an absent command is a no-op; removing a present one empties
    // exactly its slot.
    s.apply_cmd(SequencerControlCmd::RmCmd {
        sequence: "kick".to_string(),
        step: 0,
        cmd: midi_daw::types::TrackerCmd::Panic,
    })
    .unwrap();
    let seq2 = s.get_sequence(&"kick".to_string()).unwrap();
    assert!(midi_daw::types::tracker_cmd_eq(&seq2.steps[0].cmd_a, &roll));
    s.apply_cmd(SequencerControlCmd::RmCmd {
        sequence: "kick".to_string(),
        step: 0,
        cmd: roll.clone(),
    })
    .unwrap();
    let seq3 = s.get_sequence(&"kick".to_string()).unwrap();
    assert!(matches!(seq3.steps[0].cmd_a, midi_daw::types::TrackerCmd::NoCmd));
    assert!(midi_daw::types::tracker_cmd_eq(&seq3.steps[0].cmd_b, &hold));

    // The step index is checked before anything changes.
    assert!(matches!(
        s.apply_cmd(SequencerControlCmd::AddCmd {
            sequence: "kick".to_string(),
            step: 16,
            cmd: roll,
        }),
        Err(SequencerError::InvalidStep)
    ));
}

#[test]
fn rolls_restrike_on_half_steps() {
    let mut s = state_with(&["kick"]);
    let name = "kick".to_string();
    s.add_note(&name, 0, 60, 100, None).unwrap();
    s.add_cmd(&name, 0, midi_daw::types::TrackerCmd::Roll { times: 2 }).unwrap();
    s.play(&vec![name]);

    // PPQ 48: half-steps fall every six ticks. The base strike lands on
    // tick 0 and the two roll strikes on the next two half-steps.
    let mut strikes = Vec::new();
    for t in 0u64..=13 {
        let out = s.step_tick(48);
        for m in &out.struck {
            if matches!(m.msg, midi_daw::types::MidiMsg::PlayNote { note: 60, .. }) {
                strikes.push(t);
            }
        }
    }
    assert_eq!(strikes, vec![0, 6, 12]);
    // Both strikes spent: the record is gone, nothing pends forever.
    assert!(s.retrigs.is_empty());
}

#[test]
fn exhausted_retrigs_are_discarded() {
    let mut s = state_with(&["kick"]);
    let name = "kick".to_string();
    s.add_note(&name, 0, 60, 100, None).unwrap();
    s.add_cmd(&name, 0, midi_daw::types::TrackerCmd::Roll { times: 0 }).unwrap();
    s.play(&vec![name]);

    // A zero-count roll schedules nothing and never accumulates: the record
    // leaves on the very next pulse, so the pending list stays bounded while
    // the step loops (16 steps of 12 ticks at PPQ 48 — step 0 recurs at tick
    // 192).
    let mut strikes = 0;
    for t in 0u64..=192 {
        let out = s.step_tick(48);
        for m in &out.struck {
            if matches!(m.msg, midi_daw::types::MidiMsg::PlayNote { note: 60, .. }) {
                strikes += 1;
            }
        }
        assert!(s.retrigs.len() <= 1, "tick {t}: {} pending retriggers", s.retrigs.len());
    }
    // The note itself strikes on each pass of step 0; the dead roll never does.
    assert_eq!(strikes, 2);
    s.step_tick(48);
    assert!(s.retrigs.is_empty());
}

#[test]
fn panic_flushes_every_held_note() {
    let mut s = state_with(&["kick"]);
    let name = "kick".to_string();
    // A long-held note on step 0 and a panic on step 1.
    s.add_note(&name, 0, 60, 100, None).unwrap();
    s.add_cmd(&name, 0, midi_daw::types::TrackerCmd::HoldFor { notes: 8 }).unwrap();
    s.add_cmd(&name, 1, midi_daw::types::TrackerCmd::Panic).unwrap();
    s.play(&vec![name]);

    s.step_tick(48);
    assert_eq!(s.held.len(), 1);
    // Ticks 1..=11 keep the note held; the panic at the next step boundary
    // (tick 12) releases it at once.
    let mut released_at = None;
    for t in 1u64..=12 {
        let out = s.step_tick(48);
        if out.released.iter().any(
            |m| matches!(m.msg, midi_daw::types::MidiMsg::StopNote { note: 60 }),
        ) {
            released_at = Some(t);
        }
    }
    assert_eq!(released_at, Some(12));
    assert!(s.held.is_empty());
    assert!(s.retrigs.is_empty());
}
