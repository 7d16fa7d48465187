//! The conductor of this firmware: a beat track, a looping pattern, input
//! notes echoed three semitones up, and a status text for the display.
use vstd::prelude::*;

use crate::conductor::Conductor;
use crate::context::{quit_view, start_view, Context, ContextView, STEPS_PER_BEAT};
use crate::display::DisplayText;
use crate::midi::MidiMessage;
use crate::midi_controller::Instruction;
use crate::note::{transposed, MidiNote, Note};
use crate::track::{DeteTrack, Track};

verus! {

/// The run ends when the conductor sees this step.
pub const LAST_STEP: u32 = 959;

/// Semitones added to the notes that come in.
pub const INPUT_TRANSPOSE: i8 = 3;

/// Length in ticks of the beat track's notes.
pub const BEAT_NOTE_LEN: u32 = 12;

/// The note of the beat track: C of octave 4 (key 60), full velocity.
pub open spec fn beat_note() -> MidiNote {
    MidiNote { note: Note::C, octave: 4, vel: 127 }
}

/// Plays the beat note on every beat, on its channel.
pub struct MyTrack {
    pub channel_id: u8,
}

impl Track for MyTrack {
    open spec fn step_instructions(&self, step: u32) -> Seq<Instruction> {
        if step % STEPS_PER_BEAT == 0 {
            seq![Instruction::PlayNote { midi_note: beat_note(), len: BEAT_NOTE_LEN, channel_id: self.channel_id }]
        } else {
            Seq::empty()
        }
    }

    /// The beat track holds no state.
    open spec fn after_step(&self, step: u32) -> MyTrack {
        *self
    }

    fn play_step(&mut self, step: u32) -> (r: Vec<Instruction>) {
        if step % STEPS_PER_BEAT == 0 {
            let note = MidiNote { note: Note::C, octave: 4, vel: 127 };
            vec![Instruction::PlayNote { midi_note: note, len: BEAT_NOTE_LEN, channel_id: self.channel_id }]
        } else {
            Vec::new()
        }
    }
}

/// The character of decimal digit `d`.
pub open spec fn digit_char(d: int) -> char {
    if d == 0 {
        '0'
    } else if d == 1 {
        '1'
    } else if d == 2 {
        '2'
    } else if d == 3 {
        '3'
    } else if d == 4 {
        '4'
    } else if d == 5 {
        '5'
    } else if d == 6 {
        '6'
    } else if d == 7 {
        '7'
    } else if d == 8 {
        '8'
    } else {
        '9'
    }
}

/// `n` written in decimal, without leading zeros.
pub open spec fn decimal(n: nat) -> Seq<char>
    decreases n,
{
    if n < 10 {
        seq![digit_char(n as int)]
    } else {
        decimal(n / 10).push(digit_char((n % 10) as int))
    }
}

fn digit(d: u32) -> (r: char)
    requires
        d < 10,
    ensures
        r == digit_char(d as int),
{
    if d == 0 {
        '0'
    } else if d == 1 {
        '1'
    } else if d == 2 {
        '2'
    } else if d == 3 {
        '3'
    } else if d == 4 {
        '4'
    } else if d == 5 {
        '5'
    } else if d == 6 {
        '6'
    } else if d == 7 {
        '7'
    } else if d == 8 {
        '8'
    } else {
        '9'
    }
}

/// Appends `n` in decimal to `line`.
fn push_decimal(line: &mut Vec<char>, n: u32)
    ensures
        final(line)@ == old(line)@ + decimal(n as nat),
    decreases n,
{
    if n >= 10 {
        push_decimal(line, n / 10);
    }
    line.push(digit(n % 10));
    assert(line@ =~= old(line)@ + decimal(n as nat));
}

/// The characters of `s`.
fn chars_of(s: &str) -> (r: Vec<char>)
    ensures
        r@ == s@,
{
    let mut r: Vec<char> = Vec::new();
    for c in it: s.chars()
        invariant
            r@ == it.seq().take(it.index() as int),
    {
        r.push(c);
        assert(r@ =~= it.seq().take(it.index() + 1));
    }
    r
}

/// The four lines of the status text: a title, the tempo, the beat count
/// and a motto.
pub open spec fn status_lines(bpm: u8, step: u32) -> Seq<Seq<char>> {
    seq![
        " -- Mseq -- "@,
        "Bpm: "@ + decimal(bpm as nat),
        "Step: "@ + decimal((step / STEPS_PER_BEAT) as nat),
        "Machines play"@,
    ]
}

/// What an input message becomes: notes come back three semitones up as
/// messages; other input is dropped.
pub open spec fn echo(input: MidiMessage) -> Seq<Instruction> {
    match input {
        MidiMessage::NoteOff { channel, note } => seq![
            Instruction::MidiMessage {
                midi_message: MidiMessage::NoteOff { channel, note: transposed(note, INPUT_TRANSPOSE) },
            },
        ],
        MidiMessage::NoteOn { channel, note } => seq![
            Instruction::MidiMessage {
                midi_message: MidiMessage::NoteOn { channel, note: transposed(note, INPUT_TRANSPOSE) },
            },
        ],
        _ => Seq::empty(),
    }
}

/// Starts the transport, plays the beat track and a pattern together, and
/// ends the run at the last step.
pub struct UserConductor {
    pub track: MyTrack,
    pub acid: DeteTrack,
}

impl UserConductor {
    /// The beat track on channel 1 and a pattern that plays nothing.
    pub fn new() -> (r: UserConductor)
        ensures
            r.track.channel_id == 1,
            r.acid.len == 0,
            r.acid.notes@.len() == 0,
    {
        UserConductor { track: MyTrack { channel_id: 1 }, acid: DeteTrack::empty() }
    }

    /// The beat track on channel 1 and the pattern `acid`.
    pub fn with_pattern(acid: DeteTrack) -> (r: UserConductor)
        ensures
            r.track.channel_id == 1,
            r.acid == acid,
    {
        UserConductor { track: MyTrack { channel_id: 1 }, acid }
    }
}

impl Conductor for UserConductor {
    open spec fn init_spec(&self, ctx: ContextView) -> (Seq<Instruction>, ContextView) {
        (Seq::empty(), start_view(ctx))
    }

    open spec fn update_spec(&self, ctx: ContextView) -> (Seq<Instruction>, ContextView) {
        if ctx.step == LAST_STEP {
            (Seq::empty(), quit_view(ctx))
        } else {
            (self.track.step_instructions(ctx.step) + self.acid.step_instructions(ctx.step), ctx)
        }
    }

    open spec fn input_spec(&self, input: MidiMessage, ctx: ContextView) -> Seq<Instruction> {
        echo(input)
    }

    open spec fn after_init(&self, ctx: ContextView) -> UserConductor {
        *self
    }

    open spec fn after_update(&self, ctx: ContextView) -> UserConductor {
        *self
    }

    open spec fn after_input(&self, input: MidiMessage, ctx: ContextView) -> UserConductor {
        *self
    }

    open spec fn text_spec(&self, ctx: ContextView) -> Seq<Seq<char>> {
        status_lines(ctx.bpm, ctx.step)
    }

    fn init(&mut self, context: &mut Context) -> (r: Vec<Instruction>) {
        // The sequencer is stopped until the conductor starts it.
        context.start();
        Vec::new()
    }

    fn update(&mut self, context: &mut Context) -> (r: Vec<Instruction>) {
        let step = context.get_step();
        if step == LAST_STEP {
            context.quit();
            return Vec::new();
        }
        let mut instructions = self.track.play_step(step);
        let mut more = self.acid.play_step(step);
        instructions.append(&mut more);
        instructions
    }

    fn handle_input(&mut self, input: MidiMessage, context: &Context) -> (r: Vec<Instruction>) {
        match input {
            MidiMessage::NoteOff { channel, note } => vec![
                Instruction::MidiMessage {
                    midi_message: MidiMessage::NoteOff { channel, note: note.transpose(INPUT_TRANSPOSE) },
                },
            ],
            MidiMessage::NoteOn { channel, note } => vec![
                Instruction::MidiMessage {
                    midi_message: MidiMessage::NoteOn { channel, note: note.transpose(INPUT_TRANSPOSE) },
                },
            ],
            _ => Vec::new(),
        }
    }

    fn display_text(&self, context: &Context) -> (r: DisplayText) {
        let line0 = chars_of(" -- Mseq -- ");
        let mut line1 = chars_of("Bpm: ");
        push_decimal(&mut line1, context.get_bpm() as u32);
        let mut line2 = chars_of("Step: ");
        push_decimal(&mut line2, context.get_step() / STEPS_PER_BEAT);
        let line3 = chars_of("Machines play");
        let r = DisplayText { lines: vec![line0, line1, line2, line3] };
        assert(r@ =~= status_lines(context@.bpm, context@.step));
        r
    }
}

} // verus!
