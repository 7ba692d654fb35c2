use std::sync::{Arc, RwLock};

use midi_daw::bus::MbServer;
use midi_daw::clock::{
    beat_label, beat_label_interval_us, get_step_num, interval_us, next_tick, on_sixteenth_note,
    on_thirtysecond_note, sync_tick_interval_us,
};
use midi_daw::devices::{diff_devices, DeviceRegistry, MidiDev, SendError};
use midi_daw::shared::unwrap_rw_lock;
use midi_daw::types::{MidiChannel, MidiMsg, MidiReqBody};

#[test]
fn tempo_120_ppq_48_gives_ten_point_four_millisecond_ticks() {
    // 60s / 120bpm / 48ppq = 10.416ms per tick.
    assert_eq!(interval_us(120, 48), 10_416);
    // One sixteenth note spans twelve ticks at PPQ 48: over the first
    // twelve ticks exactly one boundary fires, and over 48 ticks (one
    // quarter note) a boundary fires once every twelve.
    let fired: Vec<u64> = (1..=48).filter(|t| on_sixteenth_note(*t, 48)).collect();
    assert_eq!(fired, vec![12, 24, 36, 48]);
    assert_eq!((1..=12).filter(|t| on_sixteenth_note(*t, 48)).count(), 1);
    assert!(on_thirtysecond_note(6, 48));
    assert_eq!(get_step_num(13, 48, 16), 1);
    assert_eq!(get_step_num(12 * 16, 48, 16), 0);
    // The counter increments while anything plays, wraps at the top, and
    // resets once nothing is playing or queued.
    assert_eq!(next_tick(5, false, false), 6);
    assert_eq!(next_tick(u64::MAX, false, false), 0);
    assert_eq!(next_tick(9, true, true), 0);
}

#[test]
fn beat_labels_cycle_sixteen_per_bar() {
    let expected = [
        "1", "1e", "1&", "1a", "2", "2e", "2&", "2a", "3", "3e", "3&", "3a", "4", "4e", "4&", "4a",
    ];
    for (i, want) in expected.iter().enumerate() {
        assert_eq!(beat_label(i as u64), *want);
    }
    // The cycle wraps: step 16 is the top of the next bar.
    assert_eq!(beat_label(16), "1");
    assert_eq!(beat_label(31), "4a");
}

#[test]
fn sync_cadences_follow_the_tempo() {
    // At 120 bpm a beat lasts 500ms: the textual label goes out every
    // sixteenth (125ms) and the binary tick every thirty-second (62.5ms).
    assert_eq!(beat_label_interval_us(120), 125_000);
    assert_eq!(sync_tick_interval_us(120), 62_500);
    assert_eq!(sync_tick_interval_us(60), 125_000);
}

#[test]
fn registry_routes_known_devices_and_drops_unknown() {
    let mut reg = DeviceRegistry::new();
    reg.apply(&MidiDev::CreateVirtual("synth".to_string()));
    // Creating the same virtual device twice is an idempotent success.
    reg.apply(&MidiDev::CreateVirtual("synth".to_string()));
    assert_eq!(reg.devs.len(), 1);

    let req = MidiReqBody::new(
        "synth".to_string(),
        MidiChannel::Ch2,
        MidiMsg::PlayNote { note: 60, velocity: 100, duration: midi_daw::types::NoteDuration::Sn(1) },
    );
    let (name, bytes) = reg.route(&req).unwrap();
    assert_eq!(name, "synth");
    assert_eq!(bytes, vec![0x91, 60, 100]);

    let missing = MidiReqBody::new("ghost".to_string(), MidiChannel::Ch1, MidiMsg::StopNote { note: 3 });
    assert_eq!(reg.route(&missing), Err(SendError::UnknownDevice));

    reg.apply(&MidiDev::RMed("synth".to_string()));
    assert_eq!(reg.route(&req), Err(SendError::UnknownDevice));
}

#[test]
fn wire_bytes_follow_the_midi_encoding() {
    let mut reg = DeviceRegistry::new();
    reg.apply(&MidiDev::Added { dev_name: "d".to_string(), dev_id: "1".to_string() });
    let d = "d".to_string();

    let stop = MidiReqBody::new(d.clone(), MidiChannel::Ch1, MidiMsg::StopNote { note: 60 });
    assert_eq!(reg.route(&stop).unwrap().1, vec![0x80, 60, 127]);

    // Control numbers clamp to 119 and values to seven bits.
    let cc = MidiReqBody::new(d.clone(), MidiChannel::Ch16, MidiMsg::CC { control: 200, value: 200 });
    assert_eq!(reg.route(&cc).unwrap().1, vec![0xBF, 119, 127]);

    // Pitch bend splits into two seven-bit bytes, least significant first.
    let bend = MidiReqBody::new(d.clone(), MidiChannel::Ch1, MidiMsg::PitchBend { bend: 300 });
    assert_eq!(reg.route(&bend).unwrap().1, vec![0xE0, 44, 2]);
    let sat = MidiReqBody::new(d, MidiChannel::Ch1, MidiMsg::PitchBend { bend: 60000 });
    assert_eq!(reg.route(&sat).unwrap().1, vec![0xE0, 127, 127]);
}

#[test]
fn device_diff_reports_added_and_removed() {
    let known = vec![("a".to_string(), "1".to_string()), ("b".to_string(), "2".to_string())];
    let current = vec![("a".to_string(), "1".to_string()), ("c".to_string(), "3".to_string())];
    let events = diff_devices(&known, &current);
    let mut added = Vec::new();
    let mut removed = Vec::new();
    for e in &events {
        match e {
            MidiDev::Added { dev_name, dev_id } => added.push((dev_name.clone(), dev_id.clone())),
            MidiDev::RMed(n) => removed.push(n.clone()),
            MidiDev::CreateVirtual(_) => panic!("diff never creates virtual devices"),
        }
    }
    assert_eq!(added, vec![("c".to_string(), "3".to_string())]);
    assert_eq!(removed, vec!["b".to_string()]);
}

#[test]
fn bus_fans_out_to_everyone_but_the_sender() {
    let mut bus = MbServer::new();
    bus.connect(1);
    bus.connect(2);
    bus.connect(3);
    bus.connect(2);
    assert_eq!(bus.sessions.len(), 3);

    let to = bus.recipients(2);
    assert_eq!(to, vec![1, 3]);

    // A failed delivery drops the subscription, never stalling anyone.
    bus.drop_failed(&vec![3]);
    assert_eq!(bus.recipients(2), vec![1]);
    bus.disconnect(1);
    assert!(bus.recipients(2).is_empty());
}

#[test]
fn shared_tempo_reads_through_the_lock() {
    let tempo: Arc<RwLock<f64>> = Arc::new(RwLock::new(99.5));
    assert_eq!(unwrap_rw_lock(&tempo, 0.0), 99.5);
    let bpq: Arc<RwLock<u32>> = Arc::new(RwLock::new(48));
    assert_eq!(unwrap_rw_lock(&bpq, 24), 48);
}
