//! The wire layer: turning the library's channel messages into raw MIDI
//! bytes through the `midi_msg` encoder.

use vstd::prelude::*;

use crate::types::{channel_index_spec, MidiChannel, MidiMsg, MidiReqBody};

verus! {

/// The bytes of a note-on message: the status byte carries the channel, and
/// note and velocity are clamped to seven bits.
pub open spec fn note_on_bytes_spec(ch: int, note: u8, velocity: u8) -> Seq<u8> {
    seq![
        (0x90 + ch) as u8,
        if note > 127 {
            127u8
        } else {
            note
        },
        if velocity > 127 {
            127u8
        } else {
            velocity
        },
    ]
}

/// The bytes of a note-off message.
pub open spec fn note_off_bytes_spec(ch: int, note: u8, velocity: u8) -> Seq<u8> {
    seq![
        (0x80 + ch) as u8,
        if note > 127 {
            127u8
        } else {
            note
        },
        if velocity > 127 {
            127u8
        } else {
            velocity
        },
    ]
}

/// The bytes of a control-change message: the control number is clamped to
/// 119 and the value to seven bits.
pub open spec fn cc_bytes_spec(ch: int, control: u8, value: u8) -> Seq<u8> {
    seq![
        (0xB0 + ch) as u8,
        if control > 119 {
            119u8
        } else {
            control
        },
        if value > 127 {
            127u8
        } else {
            value
        },
    ]
}

/// The bytes of a pitch-bend message: fourteen bits split over two data
/// bytes, least significant first; a bend beyond the range saturates.
pub open spec fn pitch_bend_bytes_spec(ch: int, bend: u16) -> Seq<u8> {
    seq![
        (0xE0 + ch) as u8,
        if bend > 16383 {
            127u8
        } else {
            (bend % 128) as u8
        },
        if bend > 16383 {
            127u8
        } else {
            (bend / 128) as u8
        },
    ]
}

/// Relies on `midi_msg::MidiMsg::to_midi` for a channel-voice note-on: the
/// status byte is `0x90` plus the channel, then the note and velocity each
/// clamped to seven bits.
#[verifier::external_body]
fn note_on_bytes(ch: u8, note: u8, velocity: u8) -> (r: Vec<u8>)
    requires
        ch < 16,
    ensures
        r@ == note_on_bytes_spec(ch as int, note, velocity),
{
    midi_msg::MidiMsg::ChannelVoice {
        channel: midi_msg::Channel::from_u8(ch),
        msg: midi_msg::ChannelVoiceMsg::NoteOn { note, velocity },
    }.to_midi()
}

/// Relies on `midi_msg::MidiMsg::to_midi` for a channel-voice note-off: the
/// status byte is `0x80` plus the channel, then the note and velocity each
/// clamped to seven bits.
#[verifier::external_body]
fn note_off_bytes(ch: u8, note: u8, velocity: u8) -> (r: Vec<u8>)
    requires
        ch < 16,
    ensures
        r@ == note_off_bytes_spec(ch as int, note, velocity),
{
    midi_msg::MidiMsg::ChannelVoice {
        channel: midi_msg::Channel::from_u8(ch),
        msg: midi_msg::ChannelVoiceMsg::NoteOff { note, velocity },
    }.to_midi()
}

/// Relies on `midi_msg::MidiMsg::to_midi` for a control change: the status
/// byte is `0xB0` plus the channel, then the control number clamped to 119
/// and the value clamped to seven bits.
#[verifier::external_body]
fn cc_bytes(ch: u8, control: u8, value: u8) -> (r: Vec<u8>)
    requires
        ch < 16,
    ensures
        r@ == cc_bytes_spec(ch as int, control, value),
{
    midi_msg::MidiMsg::ChannelVoice {
        channel: midi_msg::Channel::from_u8(ch),
        msg: midi_msg::ChannelVoiceMsg::ControlChange {
            control: midi_msg::ControlChange::CC { control, value },
        },
    }.to_midi()
}

/// Relies on `midi_msg::MidiMsg::to_midi` for a pitch bend: the status byte
/// is `0xE0` plus the channel, then the fourteen-bit bend least significant
/// byte first, saturating beyond 16383.
#[verifier::external_body]
fn pitch_bend_bytes(ch: u8, bend: u16) -> (r: Vec<u8>)
    requires
        ch < 16,
    ensures
        r@ == pitch_bend_bytes_spec(ch as int, bend),
{
    midi_msg::MidiMsg::ChannelVoice {
        channel: midi_msg::Channel::from_u8(ch),
        msg: midi_msg::ChannelVoiceMsg::PitchBend { bend },
    }.to_midi()
}

/// The wire bytes of one library message on one channel: a play becomes a
/// note-on, a stop a note-off at full release velocity, and control changes
/// and pitch bends pass through.
pub open spec fn midi_bytes_spec(channel: MidiChannel, msg: MidiMsg) -> Seq<u8> {
    let ch = channel_index_spec(channel);
    match msg {
        MidiMsg::PlayNote { note, velocity, duration } => note_on_bytes_spec(ch, note, velocity),
        MidiMsg::StopNote { note } => note_off_bytes_spec(ch, note, 127),
        MidiMsg::PitchBend { bend } => pitch_bend_bytes_spec(ch, bend),
        MidiMsg::CC { control, value } => cc_bytes_spec(ch, control, value),
    }
}

/// Encode one library message for the wire.
pub fn midi_bytes(channel: MidiChannel, msg: &MidiMsg) -> (r: Vec<u8>)
    ensures
        r@ == midi_bytes_spec(channel, *msg),
{
    let ch = channel.index();
    match msg {
        MidiMsg::PlayNote { note, velocity, duration: _ } => note_on_bytes(ch, *note, *velocity),
        MidiMsg::StopNote { note } => note_off_bytes(ch, *note, 127),
        MidiMsg::PitchBend { bend } => pitch_bend_bytes(ch, *bend),
        MidiMsg::CC { control, value } => cc_bytes(ch, *control, *value),
    }
}

/// Encode one outbound request for the wire: the bytes and the target device
/// name they must reach.
pub fn request_bytes(req: &MidiReqBody) -> (r: (String, Vec<u8>))
    ensures
        r.0@ == req.midi_dev@,
        r.1@ == midi_bytes_spec(req.channel, req.msg),
{
    let name = req.midi_dev.clone();
    let bytes = midi_bytes(req.channel, &req.msg);
    (name, bytes)
}

} // verus!
