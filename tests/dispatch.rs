use mseq_firmware::midi::MidiMessage;
use mseq_firmware::midi_controller::{DispatchError, Instruction, MidiController, PENDING_CAPACITY};
use mseq_firmware::note::MidiNote;

fn play(key: u8, len: u32, channel: u8) -> Instruction {
    Instruction::PlayNote { midi_note: MidiNote::from_midi_value(key, 100), len, channel_id: channel }
}

fn off(key: u8, channel: u8) -> MidiMessage {
    MidiMessage::NoteOff { channel, note: MidiNote::from_midi_value(key, 0) }
}

#[test]
fn note_is_switched_off_after_its_length() {
    let mut c = MidiController::new();
    let mut out = Vec::new();
    assert!(c.dispatch(play(60, 3, 1), &mut out).is_ok());
    assert_eq!(out, vec![MidiMessage::NoteOn { channel: 1, note: MidiNote::from_midi_value(60, 100) }]);
    for _ in 0..2 {
        let mut tick = Vec::new();
        c.post_tick(&mut tick);
        assert!(tick.is_empty());
    }
    let mut tick = Vec::new();
    c.post_tick(&mut tick);
    assert_eq!(tick, vec![off(60, 1)]);
    for _ in 0..5 {
        let mut tick = Vec::new();
        c.post_tick(&mut tick);
        assert!(tick.is_empty());
    }
}

#[test]
fn zero_length_note_is_cut_at_next_tick() {
    let mut c = MidiController::new();
    let mut out = Vec::new();
    assert!(c.dispatch(play(40, 0, 2), &mut out).is_ok());
    assert_eq!(out.len(), 1);
    let mut tick = Vec::new();
    c.post_tick(&mut tick);
    assert_eq!(tick, vec![off(40, 2)]);
}

#[test]
fn replaying_a_note_overwrites_its_note_off() {
    let mut c = MidiController::new();
    let mut out = Vec::new();
    c.dispatch(play(50, 2, 1), &mut out).unwrap();
    let mut tick = Vec::new();
    c.post_tick(&mut tick);
    c.dispatch(play(50, 2, 1), &mut out).unwrap();
    assert_eq!(out.len(), 2);
    let mut offs = Vec::new();
    for _ in 0..4 {
        c.post_tick(&mut offs);
    }
    assert_eq!(offs, vec![off(50, 1)]);
}

#[test]
fn full_table_drops_the_new_note() {
    let mut c = MidiController::new();
    let mut out = Vec::new();
    for k in 0..PENDING_CAPACITY {
        assert!(c.dispatch(play(k as u8, 10, 1), &mut out).is_ok());
    }
    assert_eq!(out.len(), PENDING_CAPACITY);
    let r = c.dispatch(play(100, 10, 1), &mut out);
    assert_eq!(r, Err(DispatchError::Full));
    assert_eq!(out.len(), PENDING_CAPACITY);
    // A key that is already pending can still be replayed.
    assert!(c.dispatch(play(0, 10, 1), &mut out).is_ok());
    let mut all = Vec::new();
    c.stop_all_notes(&mut all);
    assert_eq!(all.len(), PENDING_CAPACITY);
}

#[test]
fn invalid_instructions_are_refused() {
    let mut c = MidiController::new();
    let mut out = Vec::new();
    assert_eq!(c.dispatch(play(60, 1, 0), &mut out), Err(DispatchError::Invalid));
    assert_eq!(c.dispatch(play(60, 1, 17), &mut out), Err(DispatchError::Invalid));
    let bad = Instruction::MidiMessage { midi_message: MidiMessage::CC { channel: 1, controller: 200, value: 0 } };
    assert_eq!(c.dispatch(bad, &mut out), Err(DispatchError::Invalid));
    assert!(out.is_empty());
    let good = Instruction::MidiMessage { midi_message: MidiMessage::PC { channel: 1, value: 3 } };
    assert!(c.dispatch(good, &mut out).is_ok());
    assert_eq!(out, vec![MidiMessage::PC { channel: 1, value: 3 }]);
}

#[test]
fn execute_all_reports_each_failure() {
    let mut c = MidiController::new();
    let mut out = Vec::new();
    let errs = c.execute_all(vec![play(60, 1, 1), play(61, 1, 99), play(62, 1, 2)], &mut out);
    assert_eq!(errs, vec![DispatchError::Invalid]);
    assert_eq!(out.len(), 2);
}

#[test]
fn stop_all_notes_empties_the_table() {
    let mut c = MidiController::new();
    let mut out = Vec::new();
    c.dispatch(play(60, 10, 1), &mut out).unwrap();
    c.dispatch(play(64, 10, 3), &mut out).unwrap();
    let mut offs = Vec::new();
    c.stop_all_notes(&mut offs);
    assert_eq!(offs, vec![off(60, 1), off(64, 3)]);
    let mut tick = Vec::new();
    c.post_tick(&mut tick);
    assert!(tick.is_empty());
}
