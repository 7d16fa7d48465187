use mseq_firmware::driver::{DriverError, MidiError};
use mseq_firmware::midi_controller::Instruction;
use mseq_firmware::note::MidiNote;
use mseq_firmware::rtt_logger::{Level, LevelFilter, RttLogger};
use mseq_firmware::track::{DeteTrack, PatternNote, Track};

#[test]
fn level_colours() {
    assert_eq!(RttLogger::color_for(Level::Error), "\x1B[31m");
    assert_eq!(RttLogger::color_for(Level::Warn), "\x1B[33m");
    assert_eq!(RttLogger::color_for(Level::Info), "\x1B[32m");
    assert_eq!(RttLogger::color_for(Level::Debug), "\x1B[36m");
    assert_eq!(RttLogger::color_for(Level::Trace), "\x1B[90m");
}

#[test]
fn level_filter() {
    let logger = RttLogger { level: LevelFilter::Info };
    assert!(logger.enabled(Level::Error));
    assert!(logger.enabled(Level::Info));
    assert!(!logger.enabled(Level::Debug));
    let off = RttLogger { level: LevelFilter::Off };
    assert!(!off.enabled(Level::Error));
}

#[test]
fn driver_error_converts() {
    let e: MidiError = DriverError::Write("Serial connection").into();
    assert!(matches!(e, MidiError::Util(DriverError::Write("Serial connection"))));
}

#[test]
fn pattern_loops() {
    let n = PatternNote { note: MidiNote::from_midi_value(45, 100), start: 4, len: 3 };
    let m = PatternNote { note: MidiNote::from_midi_value(48, 90), start: 4, len: 1 };
    let mut t = DeteTrack::new(16, vec![n, m], 2);
    let at4 = t.play_step(4);
    assert_eq!(
        at4,
        vec![
            Instruction::PlayNote { midi_note: n.note, len: 3, channel_id: 2 },
            Instruction::PlayNote { midi_note: m.note, len: 1, channel_id: 2 },
        ]
    );
    assert_eq!(t.play_step(20), at4);
    assert!(t.play_step(5).is_empty());
    t.start_step = 1;
    assert_eq!(t.play_step(5).len(), 2);
    t.transpose = Some(-2);
    let r = t.play_step(5);
    assert_eq!(r[0], Instruction::PlayNote { midi_note: MidiNote::from_midi_value(43, 100), len: 3, channel_id: 2 });
    let mut empty = DeteTrack::empty();
    assert!(empty.play_step(0).is_empty());
}
