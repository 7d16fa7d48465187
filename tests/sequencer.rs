use mseq_firmware::conductor::Conductor;
use mseq_firmware::context::{Context, TransportState};
use mseq_firmware::midi::MidiMessage;
use mseq_firmware::midi_controller::{Instruction, MidiController};
use mseq_firmware::note::MidiNote;
use mseq_firmware::sequencer::{clock, flush, handle_input, init, route_input, InputRoute};
use mseq_firmware::user::UserConductor;

fn started() -> (Context, UserConductor, MidiController) {
    let mut ctx = Context::new();
    let mut conductor = UserConductor::new();
    let mut controller = MidiController::new();
    let (out, errs) = init(&mut ctx, &mut conductor, &mut controller);
    assert_eq!(out, vec![MidiMessage::Start]);
    assert!(errs.is_empty());
    (ctx, conductor, controller)
}

#[test]
fn full_run_plays_forty_notes_and_quits_at_step_959() {
    let (mut ctx, mut conductor, mut controller) = started();
    let mut note_on = 0;
    let mut note_off = 0;
    let mut quit_step = None;
    for _ in 0..960 {
        let step = ctx.get_step();
        let tick = clock(&mut ctx, &mut controller, &mut conductor);
        assert!(tick.errors.is_empty());
        assert_eq!(tick.messages[0], MidiMessage::Clock);
        for m in &tick.messages {
            match m {
                MidiMessage::NoteOn { channel, note } => {
                    assert_eq!(*channel, 1);
                    assert_eq!(note.midi_value(), 60);
                    note_on += 1;
                }
                MidiMessage::NoteOff { .. } => note_off += 1,
                MidiMessage::Stop => quit_step = Some(step),
                _ => {}
            }
        }
    }
    assert_eq!(note_on, 40);
    assert_eq!(note_off, 40);
    assert_eq!(quit_step, Some(959));
    assert_eq!(ctx.state(), TransportState::Stopped);
    // The quit takes effect at the end of the tick at step 959, which still
    // moves the step on.
    assert_eq!(ctx.get_step(), 960);
    let tick = clock(&mut ctx, &mut controller, &mut conductor);
    assert_eq!(tick.messages, vec![MidiMessage::Clock]);
    assert_eq!(ctx.get_step(), 960);
}

#[test]
fn note_off_comes_twelve_ticks_after_note_on() {
    let (mut ctx, mut conductor, mut controller) = started();
    let mut on_at = Vec::new();
    let mut off_at = Vec::new();
    for _ in 0..60 {
        let step = ctx.get_step();
        let tick = clock(&mut ctx, &mut controller, &mut conductor);
        for m in &tick.messages {
            match m {
                MidiMessage::NoteOn { .. } => on_at.push(step),
                MidiMessage::NoteOff { .. } => off_at.push(step),
                _ => {}
            }
        }
    }
    assert_eq!(on_at, vec![0, 24, 48]);
    assert_eq!(off_at, vec![12, 36]);
}

#[test]
fn tempo_change_applies_to_the_next_interval() {
    let (mut ctx, mut conductor, mut controller) = started();
    assert_eq!(ctx.get_period_us(), 20_833);
    let t1 = clock(&mut ctx, &mut controller, &mut conductor);
    assert_eq!(t1.period_us, 20_833);
    ctx.set_bpm(60);
    let t2 = clock(&mut ctx, &mut controller, &mut conductor);
    assert_eq!(t2.period_us, 41_666);
    ctx.set_bpm(0);
    assert_eq!(ctx.get_period_us(), 2_500_000);
}

#[test]
fn display_is_due_one_tick_past_each_beat() {
    let (mut ctx, mut conductor, mut controller) = started();
    let mut due = Vec::new();
    for _ in 0..50 {
        let tick = clock(&mut ctx, &mut controller, &mut conductor);
        if tick.refresh_display {
            due.push(ctx.get_step());
        }
    }
    assert_eq!(due, vec![1, 25, 49]);
}

#[test]
fn pause_freezes_the_step_and_resume_continues() {
    let (mut ctx, mut conductor, mut controller) = started();
    for _ in 0..5 {
        clock(&mut ctx, &mut controller, &mut conductor);
    }
    assert_eq!(ctx.get_step(), 5);
    ctx.pause();
    let mut out = Vec::new();
    flush(&mut ctx, &mut controller, &mut out);
    let key60 = MidiNote::from_midi_value(60, 0);
    assert_eq!(out, vec![MidiMessage::NoteOff { channel: 1, note: key60 }, MidiMessage::Stop]);
    let tick = clock(&mut ctx, &mut controller, &mut conductor);
    assert_eq!(tick.messages, vec![MidiMessage::Clock]);
    assert_eq!(ctx.get_step(), 5);
    assert!(ctx.is_paused());
    ctx.resume();
    let tick = clock(&mut ctx, &mut controller, &mut conductor);
    assert_eq!(tick.messages, vec![MidiMessage::Clock, MidiMessage::Continue]);
    assert_eq!(ctx.get_step(), 6);
    assert!(ctx.is_running());
}

#[test]
fn start_resets_the_step() {
    let mut ctx = Context::new();
    assert_eq!(ctx.state(), TransportState::Stopped);
    let mut c = UserConductor::new();
    let mut m = MidiController::new();
    ctx.start();
    ctx.start();
    let mut out = Vec::new();
    flush(&mut ctx, &mut m, &mut out);
    assert_eq!(out, vec![MidiMessage::Start]);
    for _ in 0..3 {
        clock(&mut ctx, &mut m, &mut c);
    }
    ctx.pause();
    ctx.start();
    assert_eq!(ctx.get_step(), 0);
    assert!(ctx.is_running());
}

#[test]
fn input_notes_are_echoed_three_semitones_up() {
    let (ctx, mut conductor, mut controller) = started();
    let note = MidiNote::from_midi_value(60, 90);
    let (out, errs) = handle_input(&ctx, &mut conductor, &mut controller, MidiMessage::NoteOn { channel: 2, note });
    assert!(errs.is_empty());
    assert_eq!(out, vec![MidiMessage::NoteOn { channel: 2, note: MidiNote::from_midi_value(63, 90) }]);
    let (out, _) = handle_input(&ctx, &mut conductor, &mut controller, MidiMessage::NoteOff { channel: 2, note });
    assert_eq!(out, vec![MidiMessage::NoteOff { channel: 2, note: MidiNote::from_midi_value(63, 90) }]);
    let (out, _) = handle_input(&ctx, &mut conductor, &mut controller, MidiMessage::CC { channel: 1, controller: 1, value: 1 });
    assert!(out.is_empty());
    let high = MidiNote::from_midi_value(126, 90);
    let r = conductor.handle_input(MidiMessage::NoteOn { channel: 1, note: high }, &ctx);
    assert_eq!(
        r,
        vec![Instruction::MidiMessage {
            midi_message: MidiMessage::NoteOn { channel: 1, note: MidiNote::from_midi_value(127, 90) }
        }]
    );
}

#[test]
fn messages_pass_while_stopped() {
    let ctx = Context::new();
    let mut conductor = UserConductor::new();
    let mut controller = MidiController::new();
    let note = MidiNote::from_midi_value(10, 5);
    let (out, _) = handle_input(&ctx, &mut conductor, &mut controller, MidiMessage::NoteOn { channel: 1, note });
    assert_eq!(out.len(), 1);
}

#[test]
fn routing_of_input_messages() {
    assert_eq!(route_input(&MidiMessage::Clock, false), InputRoute::Tick);
    assert_eq!(route_input(&MidiMessage::Clock, true), InputRoute::Ignore);
    assert_eq!(route_input(&MidiMessage::Start, false), InputRoute::Start);
    assert_eq!(route_input(&MidiMessage::Stop, false), InputRoute::Stop);
    assert_eq!(route_input(&MidiMessage::Continue, false), InputRoute::Continue);
    assert_eq!(route_input(&MidiMessage::Continue, true), InputRoute::Ignore);
    let cc = MidiMessage::CC { channel: 1, controller: 2, value: 3 };
    assert_eq!(route_input(&cc, true), InputRoute::Queue);
    assert_eq!(route_input(&cc, false), InputRoute::Queue);
}

