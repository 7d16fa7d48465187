//! Transport state, tempo and step counter, changed only through the
//! transport transitions.
use vstd::prelude::*;

verus! {

/// Tempo when the sequencer is created.
pub const DEFAULT_BPM: u8 = 120;

/// Clock ticks (steps) per beat.
pub const STEPS_PER_BEAT: u32 = 24;

#[derive(Clone, Copy, PartialEq, Eq, Structural, Debug)]
pub enum TransportState {
    Stopped,
    Running,
    Paused,
}

/// Work that a transport transition leaves for the next flush: a message
/// to send, or every pending note to switch off.
#[derive(Clone, Copy, PartialEq, Eq, Structural, Debug)]
pub enum SysInstruction {
    Start,
    Continue,
    Stop,
    StopAllNotes,
}

/// Tick period in microseconds: `60_000_000 / (bpm * 24)`; a tempo of 0 is
/// taken as 1.
pub open spec fn period_of(bpm: u8) -> u32 {
    let b: int = if bpm == 0 {
        1
    } else {
        bpm as int
    };
    (60_000_000int / (b * 24)) as u32
}

/// The state of a `Context` as the contracts see it.
pub struct ContextView {
    pub bpm: u8,
    pub step: u32,
    pub state: TransportState,
    pub sys: Seq<SysInstruction>,
}

pub open spec fn start_view(v: ContextView) -> ContextView {
    if v.state == TransportState::Running {
        v
    } else {
        ContextView {
            step: 0,
            state: TransportState::Running,
            sys: v.sys.push(SysInstruction::Start),
            ..v
        }
    }
}

pub open spec fn pause_view(v: ContextView) -> ContextView {
    if v.state == TransportState::Running {
        ContextView {
            state: TransportState::Paused,
            sys: v.sys.push(SysInstruction::StopAllNotes).push(SysInstruction::Stop),
            ..v
        }
    } else {
        v
    }
}

pub open spec fn resume_view(v: ContextView) -> ContextView {
    if v.state == TransportState::Paused {
        ContextView {
            state: TransportState::Running,
            sys: v.sys.push(SysInstruction::Continue),
            ..v
        }
    } else {
        v
    }
}

pub open spec fn quit_view(v: ContextView) -> ContextView {
    if v.state == TransportState::Running {
        ContextView {
            state: TransportState::Stopped,
            sys: v.sys.push(SysInstruction::StopAllNotes).push(SysInstruction::Stop),
            ..v
        }
    } else {
        ContextView { state: TransportState::Stopped, ..v }
    }
}

/// The step after `step`; the counter stops at its largest value rather
/// than wrap.
pub open spec fn next_step(step: u32) -> u32 {
    if step < u32::MAX {
        (step + 1) as u32
    } else {
        step
    }
}

/// Transport, tempo and step counter of the sequencer.
pub struct Context {
    bpm: u8,
    step: u32,
    state: TransportState,
    sys_instructions: Vec<SysInstruction>,
}

impl View for Context {
    type V = ContextView;

    closed spec fn view(&self) -> ContextView {
        ContextView {
            bpm: self.bpm,
            step: self.step,
            state: self.state,
            sys: self.sys_instructions@,
        }
    }
}

impl Default for Context {
    fn default() -> (r: Context)
        ensures
            r@ == (ContextView {
                bpm: DEFAULT_BPM,
                step: 0,
                state: TransportState::Stopped,
                sys: Seq::empty(),
            }),
    {
        Context::new()
    }
}

impl Context {
    /// A stopped sequencer at step 0 and the default tempo.
    pub fn new() -> (r: Context)
        ensures
            r@ == (ContextView {
                bpm: DEFAULT_BPM,
                step: 0,
                state: TransportState::Stopped,
                sys: Seq::empty(),
            }),
    {
        Context {
            bpm: DEFAULT_BPM,
            step: 0,
            state: TransportState::Stopped,
            sys_instructions: Vec::new(),
        }
    }

    pub fn set_bpm(&mut self, bpm: u8)
        ensures
            final(self)@ == (ContextView { bpm, ..old(self)@ }),
    {
        self.bpm = bpm;
    }

    pub fn get_bpm(&self) -> (r: u8)
        ensures
            r == self@.bpm,
    {
        self.bpm
    }

    /// Time between two clock ticks at the current tempo, in microseconds.
    pub fn get_period_us(&self) -> (r: u32)
        ensures
            r == period_of(self@.bpm),
    {
        let b: u32 = if self.bpm == 0 {
            1
        } else {
            self.bpm as u32
        };
        60_000_000 / (b * 24)
    }

    pub fn get_step(&self) -> (r: u32)
        ensures
            r == self@.step,
    {
        self.step
    }

    pub fn state(&self) -> (r: TransportState)
        ensures
            r == self@.state,
    {
        self.state
    }

    pub fn is_running(&self) -> (r: bool)
        ensures
            r == (self@.state == TransportState::Running),
    {
        self.state == TransportState::Running
    }

    pub fn is_paused(&self) -> (r: bool)
        ensures
            r == (self@.state == TransportState::Paused),
    {
        self.state == TransportState::Paused
    }

    /// Stopped or paused to running, from step 0; a start message is sent.
    pub fn start(&mut self)
        ensures
            final(self)@ == start_view(old(self)@),
    {
        if self.state != TransportState::Running {
            self.step = 0;
            self.state = TransportState::Running;
            self.sys_instructions.push(SysInstruction::Start);
        }
    }

    /// Running to paused: the step counter holds, sounding notes are
    /// switched off and a stop message is sent.
    pub fn pause(&mut self)
        ensures
            final(self)@ == pause_view(old(self)@),
    {
        if self.state == TransportState::Running {
            self.state = TransportState::Paused;
            self.sys_instructions.push(SysInstruction::StopAllNotes);
            self.sys_instructions.push(SysInstruction::Stop);
        }
    }

    /// Paused to running, where it stopped; a continue message is sent.
    pub fn resume(&mut self)
        ensures
            final(self)@ == resume_view(old(self)@),
    {
        if self.state == TransportState::Paused {
            self.state = TransportState::Running;
            self.sys_instructions.push(SysInstruction::Continue);
        }
    }

    /// Any state to stopped, which ends the run. From running, sounding
    /// notes are switched off and a stop message is sent.
    pub fn quit(&mut self)
        ensures
            final(self)@ == quit_view(old(self)@),
    {
        if self.state == TransportState::Running {
            self.sys_instructions.push(SysInstruction::StopAllNotes);
            self.sys_instructions.push(SysInstruction::Stop);
        }
        self.state = TransportState::Stopped;
    }

    /// Hands out the work left by transitions, oldest first, and forgets it.
    pub(crate) fn take_sys_instructions(&mut self) -> (r: Vec<SysInstruction>)
        ensures
            r@ == old(self)@.sys,
            final(self)@ == (ContextView { sys: Seq::empty(), ..old(self)@ }),
    {
        let mut taken: Vec<SysInstruction> = Vec::new();
        std::mem::swap(&mut taken, &mut self.sys_instructions);
        taken
    }

    /// Moves to the next step.
    pub(crate) fn advance(&mut self)
        ensures
            final(self)@ == (ContextView { step: next_step(old(self)@.step), ..old(self)@ }),
    {
        if self.step < u32::MAX {
            self.step = self.step + 1;
        }
    }
}

} // verus!
