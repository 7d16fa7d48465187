//! A MIDI step-sequencer engine: the wire codec, note model, transport
//! clock, instruction dispatch with pending note-offs, the track and
//! conductor composition layer, and the character-display diff renderer.
pub mod conductor;
pub mod context;
pub mod display;
pub mod driver;
pub mod midi;
pub mod midi_controller;
pub mod midi_input;
pub mod note;
pub mod rtt_logger;
pub mod sequencer;
pub mod track;
pub mod user;
