//! The conductor: the composition layer that decides, step by step, what
//! is played and when the transport moves.
use vstd::prelude::*;

use crate::context::{Context, ContextView};
use crate::display::DisplayText;
use crate::midi::MidiMessage;
use crate::midi_controller::Instruction;

verus! {

/// Implemented by the user of the sequencer. Only a conductor calls the
/// transport transitions; what it returns is handed to the dispatcher.
pub trait Conductor: Sized {
    /// Instructions returned by `init`, and the context it leaves.
    spec fn init_spec(&self, ctx: ContextView) -> (Seq<Instruction>, ContextView);

    /// Instructions returned by `update`, and the context it leaves.
    spec fn update_spec(&self, ctx: ContextView) -> (Seq<Instruction>, ContextView);

    /// Instructions returned by `handle_input`.
    spec fn input_spec(&self, input: MidiMessage, ctx: ContextView) -> Seq<Instruction>;

    /// The conductor after `init`.
    spec fn after_init(&self, ctx: ContextView) -> Self;

    /// The conductor after `update`.
    spec fn after_update(&self, ctx: ContextView) -> Self;

    /// The conductor after `handle_input`.
    spec fn after_input(&self, input: MidiMessage, ctx: ContextView) -> Self;

    /// The lines returned by `display_text`.
    spec fn text_spec(&self, ctx: ContextView) -> Seq<Seq<char>>;

    /// Called once, before the first tick.
    fn init(&mut self, context: &mut Context) -> (r: Vec<Instruction>)
        ensures
            (r@, final(context)@) == old(self).init_spec(old(context)@),
            *final(self) == old(self).after_init(old(context)@),
    ;

    /// Called at every tick with the current step.
    fn update(&mut self, context: &mut Context) -> (r: Vec<Instruction>)
        ensures
            (r@, final(context)@) == old(self).update_spec(old(context)@),
            *final(self) == old(self).after_update(old(context)@),
    ;

    /// Called with each input message, in the order of arrival.
    fn handle_input(&mut self, input: MidiMessage, context: &Context) -> (r: Vec<Instruction>)
        ensures
            r@ == old(self).input_spec(input, context@),
            *final(self) == old(self).after_input(input, context@),
    ;

    /// Text for the display, from tempo, step and transport state.
    fn display_text(&self, context: &Context) -> (r: DisplayText)
        ensures
            r@ == self.text_spec(context@),
    ;
}

} // verus!
