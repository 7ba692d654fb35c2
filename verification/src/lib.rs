//! Core of a headless step-sequencer and MIDI output engine: named sequences
//! of steps are driven by a shared tempo clock, tracker performance commands
//! are expanded into concrete note events, and the resulting MIDI messages are
//! routed to output devices while sync pulses fan out to subscribers.

pub mod bus;
pub mod clock;
pub mod devices;
pub mod expand;
pub mod notes;
pub mod persist;
pub mod playback;
pub mod sequencer;
pub mod shared;
pub mod types;
pub mod wire;
