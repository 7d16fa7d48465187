use mseq_firmware::note::{MidiNote, Note};

#[test]
fn key_numbers() {
    let c4 = MidiNote::from_midi_value(60, 100);
    assert_eq!(c4, MidiNote { note: Note::C, octave: 4, vel: 100 });
    assert_eq!(c4.midi_value(), 60);
    let lowest = MidiNote::from_midi_value(0, 1);
    assert_eq!(lowest, MidiNote { note: Note::C, octave: -1, vel: 1 });
    let highest = MidiNote::from_midi_value(127, 1);
    assert_eq!(highest, MidiNote { note: Note::G, octave: 9, vel: 1 });
    for k in 0..=127u8 {
        assert_eq!(MidiNote::from_midi_value(k, 64).midi_value(), k);
    }
}

#[test]
fn transpose_moves_by_semitones() {
    let c4 = MidiNote { note: Note::C, octave: 4, vel: 80 };
    assert_eq!(c4.transpose(3), MidiNote { note: Note::DS, octave: 4, vel: 80 });
    assert_eq!(c4.transpose(-1), MidiNote { note: Note::B, octave: 3, vel: 80 });
    assert_eq!(c4.transpose(12).midi_value(), 72);
}

#[test]
fn transpose_clamps_instead_of_wrapping() {
    let high = MidiNote::from_midi_value(126, 10);
    assert_eq!(high.transpose(5).midi_value(), 127);
    let low = MidiNote::from_midi_value(2, 10);
    assert_eq!(low.transpose(-10).midi_value(), 0);
    for k in 0..=127u8 {
        for t in [i8::MIN, -100, -1, 0, 1, 100, i8::MAX] {
            let r = MidiNote::from_midi_value(k, 9).transpose(t).midi_value() as i32;
            let expected = (k as i32 + t as i32).clamp(0, 127);
            assert_eq!(r, expected);
        }
    }
}

#[test]
fn pitch_class_index() {
    assert_eq!(Note::C.index(), 0);
    assert_eq!(Note::B.index(), 11);
    assert_eq!(Note::from_index(25), Note::CS);
}
