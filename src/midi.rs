//! MIDI messages and their encoding as bytes on the wire.
use vstd::prelude::*;

use crate::note::MidiNote;

verus! {

pub const CLOCK: u8 = 0xf8;
pub const START: u8 = 0xfa;
pub const CONTINUE: u8 = 0xfb;
pub const STOP: u8 = 0xfc;
pub const NOTE_ON: u8 = 0x90;
pub const NOTE_OFF: u8 = 0x80;
pub const CC: u8 = 0xB0;
pub const PC: u8 = 0xC0;

/// A logical MIDI message. Channels are 1-based here and 0-based on the wire.
#[derive(Clone, Copy, PartialEq, Eq, Structural, Debug)]
pub enum MidiMessage {
    Clock,
    Start,
    Stop,
    Continue,
    NoteOn { channel: u8, note: MidiNote },
    NoteOff { channel: u8, note: MidiNote },
    CC { channel: u8, controller: u8, value: u8 },
    PC { channel: u8, value: u8 },
}

pub open spec fn valid_channel(channel: u8) -> bool {
    1 <= channel <= 16
}

pub fn is_valid_channel(channel: u8) -> (r: bool)
    ensures
        r == valid_channel(channel),
{
    1 <= channel && channel <= 16
}

impl MidiMessage {
    /// The message can be put on the wire: its channel is 1 to 16 and each
    /// data byte is below 128.
    pub open spec fn wf(self) -> bool {
        match self {
            MidiMessage::NoteOn { channel, note } => valid_channel(channel) && note.valid(),
            MidiMessage::NoteOff { channel, note } => valid_channel(channel) && note.valid(),
            MidiMessage::CC { channel, controller, value } => valid_channel(channel)
                && controller <= 127 && value <= 127,
            MidiMessage::PC { channel, value } => valid_channel(channel) && value <= 127,
            _ => true,
        }
    }

    pub fn is_wf(&self) -> (r: bool)
        ensures
            r == self.wf(),
    {
        match self {
            MidiMessage::NoteOn { channel, note } => is_valid_channel(*channel) && note.is_valid(),
            MidiMessage::NoteOff { channel, note } => is_valid_channel(*channel)
                && note.is_valid(),
            MidiMessage::CC { channel, controller, value } => is_valid_channel(*channel)
                && *controller <= 127 && *value <= 127,
            MidiMessage::PC { channel, value } => is_valid_channel(*channel) && *value <= 127,
            _ => true,
        }
    }

    /// The bytes of the message on the wire. A note-off always carries
    /// velocity 0.
    pub open spec fn encoding(self) -> Seq<u8> {
        match self {
            MidiMessage::Clock => seq![CLOCK],
            MidiMessage::Start => seq![START],
            MidiMessage::Stop => seq![STOP],
            MidiMessage::Continue => seq![CONTINUE],
            MidiMessage::NoteOn { channel, note } => seq![
                (NOTE_ON + channel - 1) as u8,
                note.key() as u8,
                note.vel,
            ],
            MidiMessage::NoteOff { channel, note } => seq![
                (NOTE_OFF + channel - 1) as u8,
                note.key() as u8,
                0u8,
            ],
            MidiMessage::CC { channel, controller, value } => seq![
                (CC + channel - 1) as u8,
                controller,
                value,
            ],
            MidiMessage::PC { channel, value } => seq![(PC + channel - 1) as u8, value],
        }
    }

    /// Encodes the message as the bytes to send.
    pub fn encode(&self) -> (r: Vec<u8>)
        requires
            self.wf(),
        ensures
            r@ == self.encoding(),
    {
        match self {
            MidiMessage::Clock => vec![CLOCK],
            MidiMessage::Start => vec![START],
            MidiMessage::Stop => vec![STOP],
            MidiMessage::Continue => vec![CONTINUE],
            MidiMessage::NoteOn { channel, note } => vec![
                NOTE_ON + (*channel - 1),
                note.midi_value(),
                note.vel,
            ],
            MidiMessage::NoteOff { channel, note } => vec![
                NOTE_OFF + (*channel - 1),
                note.midi_value(),
                0,
            ],
            MidiMessage::CC { channel, controller, value } => vec![
                CC + (*channel - 1),
                *controller,
                *value,
            ],
            MidiMessage::PC { channel, value } => vec![PC + (*channel - 1), *value],
        }
    }
}

} // verus!
