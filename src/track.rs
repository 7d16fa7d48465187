//! Tracks: what to play at each step.
use vstd::prelude::*;

use crate::midi_controller::Instruction;
use crate::note::MidiNote;

verus! {

/// A source of instructions, step by step. What a track plays depends on
/// the step and on the track's own state only.
pub trait Track: Sized {
    /// The instructions played at `step`.
    spec fn step_instructions(&self, step: u32) -> Seq<Instruction>;

    /// The track after playing `step`.
    spec fn after_step(&self, step: u32) -> Self;

    fn play_step(&mut self, step: u32) -> (r: Vec<Instruction>)
        ensures
            r@ == old(self).step_instructions(step),
            *final(self) == old(self).after_step(step),
    ;
}

/// One note of a pattern: the note, the step it starts at, and its length
/// in ticks.
#[derive(Clone, Copy, PartialEq, Eq, Structural, Debug)]
pub struct PatternNote {
    pub note: MidiNote,
    pub start: u32,
    pub len: u32,
}

/// The note a pattern note sounds, after the track's transposition.
pub open spec fn sounded(n: PatternNote, transpose: Option<i8>) -> MidiNote {
    match transpose {
        Some(t) => crate::note::transposed(n.note, t),
        None => n.note,
    }
}

/// The notes of `notes` that start at `step` in a pattern of `len` steps
/// shifted by `start_step`, in pattern order, as instructions.
pub open spec fn pattern_instructions(
    notes: Seq<PatternNote>,
    len: u32,
    start_step: u32,
    transpose: Option<i8>,
    channel_id: u8,
    step: u32,
) -> Seq<Instruction>
    decreases notes.len(),
{
    if notes.len() == 0 || len == 0 {
        Seq::empty()
    } else {
        let rest = pattern_instructions(notes.drop_last(), len, start_step, transpose, channel_id, step);
        let n = notes.last();
        if (n.start as int + start_step as int) % (len as int) == (step as int) % (len as int) {
            rest.push(
                Instruction::PlayNote {
                    midi_note: sounded(n, transpose),
                    len: n.len,
                    channel_id,
                },
            )
        } else {
            rest
        }
    }
}

/// A fixed pattern of `len` steps played in a loop. A pattern of length 0
/// plays nothing.
pub struct DeteTrack {
    pub len: u32,
    pub notes: Vec<PatternNote>,
    pub start_step: u32,
    pub transpose: Option<i8>,
    pub channel_id: u8,
}

impl DeteTrack {
    pub fn new(len: u32, notes: Vec<PatternNote>, channel_id: u8) -> (r: DeteTrack)
        ensures
            r.len == len,
            r.notes@ == notes@,
            r.start_step == 0,
            r.transpose is None,
            r.channel_id == channel_id,
    {
        DeteTrack { len, notes, start_step: 0, transpose: None, channel_id }
    }

    /// A pattern that plays nothing.
    pub fn empty() -> (r: DeteTrack)
        ensures
            r.len == 0,
            r.notes@.len() == 0,
            r.step_instructions(0) == Seq::<Instruction>::empty(),
    {
        DeteTrack::new(0, Vec::new(), 1)
    }
}

impl Track for DeteTrack {
    open spec fn step_instructions(&self, step: u32) -> Seq<Instruction> {
        pattern_instructions(self.notes@, self.len, self.start_step, self.transpose, self.channel_id, step)
    }

    /// The pattern never changes while it plays.
    open spec fn after_step(&self, step: u32) -> DeteTrack {
        *self
    }

    fn play_step(&mut self, step: u32) -> (r: Vec<Instruction>) {
        let mut out: Vec<Instruction> = Vec::new();
        if self.len == 0 {
            return out;
        }
        let cur = step % self.len;
        let mut i: usize = 0;
        while i < self.notes.len()
            invariant
                self.len > 0,
                cur == step % self.len,
                i <= self.notes@.len(),
                out@ == pattern_instructions(
                    self.notes@.take(i as int),
                    self.len,
                    self.start_step,
                    self.transpose,
                    self.channel_id,
                    step,
                ),
            decreases self.notes@.len() - i,
        {
            let n = self.notes[i];
            assert(self.notes@.take(i + 1).drop_last() =~= self.notes@.take(i as int));
            let at: u64 = (n.start as u64 + self.start_step as u64) % (self.len as u64);
            if at == cur as u64 {
                let note = match self.transpose {
                    Some(t) => n.note.transpose(t),
                    None => n.note,
                };
                out.push(Instruction::PlayNote { midi_note: note, len: n.len, channel_id: self.channel_id });
            }
            i = i + 1;
        }
        assert(self.notes@.take(self.notes@.len() as int) =~= self.notes@);
        out
    }
}

} // verus!
