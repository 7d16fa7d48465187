use mseq_firmware::midi::MidiMessage;
use mseq_firmware::midi_input::MidiInputHandler;
use mseq_firmware::note::{MidiNote, Note};

fn feed(bytes: &[u8]) -> Vec<MidiMessage> {
    let mut handler = MidiInputHandler::new();
    let mut out = Vec::new();
    for &b in bytes {
        if let Some(m) = handler.process_byte(b) {
            out.push(m);
        }
    }
    out
}

#[test]
fn encode_note_on() {
    let note = MidiNote { note: Note::C, octave: 4, vel: 100 };
    let m = MidiMessage::NoteOn { channel: 1, note };
    assert_eq!(m.encode(), vec![0x90, 60, 100]);
}

#[test]
fn encode_note_off_sends_velocity_zero() {
    let note = MidiNote { note: Note::A, octave: 3, vel: 90 };
    let m = MidiMessage::NoteOff { channel: 2, note };
    assert_eq!(m.encode(), vec![0x81, 57, 0]);
}

#[test]
fn encode_cc_and_pc() {
    let cc = MidiMessage::CC { channel: 16, controller: 7, value: 127 };
    assert_eq!(cc.encode(), vec![0xBF, 7, 127]);
    let pc = MidiMessage::PC { channel: 10, value: 5 };
    assert_eq!(pc.encode(), vec![0xC9, 5]);
}

#[test]
fn encode_realtime() {
    assert_eq!(MidiMessage::Clock.encode(), vec![0xF8]);
    assert_eq!(MidiMessage::Start.encode(), vec![0xFA]);
    assert_eq!(MidiMessage::Continue.encode(), vec![0xFB]);
    assert_eq!(MidiMessage::Stop.encode(), vec![0xFC]);
}

#[test]
fn decode_of_encode_gives_the_message_back() {
    let messages = vec![
        MidiMessage::Clock,
        MidiMessage::Start,
        MidiMessage::Stop,
        MidiMessage::Continue,
        MidiMessage::NoteOn { channel: 1, note: MidiNote { note: Note::C, octave: -1, vel: 1 } },
        MidiMessage::NoteOn { channel: 16, note: MidiNote { note: Note::G, octave: 9, vel: 127 } },
        MidiMessage::NoteOff { channel: 5, note: MidiNote { note: Note::FS, octave: 2, vel: 0 } },
        MidiMessage::CC { channel: 3, controller: 74, value: 64 },
        MidiMessage::PC { channel: 12, value: 99 },
    ];
    for m in messages {
        assert!(m.is_wf());
        assert_eq!(feed(&m.encode()), vec![m]);
    }
}

#[test]
fn decoder_skips_stray_byte_then_decodes() {
    let mut handler = MidiInputHandler::new();
    assert_eq!(handler.process_byte(0x00), None);
    assert_eq!(handler.process_byte(0x90), None);
    assert_eq!(handler.process_byte(0x40), None);
    let expected = MidiMessage::NoteOn { channel: 1, note: MidiNote::from_midi_value(0x40, 0x7F) };
    assert_eq!(handler.process_byte(0x7F), Some(expected));
    assert_eq!(feed(&[0x00, 0x90, 0x40, 0x7F]), vec![expected]);
}

#[test]
fn realtime_byte_inside_a_message_keeps_the_buffer() {
    let out = feed(&[0x93, 0x3C, 0xF8, 0x50]);
    let note = MidiNote::from_midi_value(0x3C, 0x50);
    assert_eq!(out, vec![MidiMessage::Clock, MidiMessage::NoteOn { channel: 4, note }]);
}

#[test]
fn no_running_status() {
    let out = feed(&[0xB0, 1, 2, 3, 4, 0xC1, 9]);
    assert_eq!(
        out,
        vec![
            MidiMessage::CC { channel: 1, controller: 1, value: 2 },
            MidiMessage::PC { channel: 2, value: 9 },
        ]
    );
}

#[test]
fn unknown_status_is_dropped() {
    assert_eq!(feed(&[0xE0, 0x00, 0x40]), vec![]);
    assert_eq!(feed(&[0xFE, 0x80, 60, 0]).len(), 1);
}
