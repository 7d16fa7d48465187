//! Errors of the serial line and of the MIDI output built on it.
use vstd::prelude::*;

verus! {

/// A failure of the serial driver; names the connection that failed.
#[derive(Clone, Copy, Debug)]
pub enum DriverError {
    Write(&'static str),
}

/// A failure while sending a MIDI message.
#[derive(Clone, Copy, Debug)]
pub enum MidiError {
    /// The driver below failed.
    Util(DriverError),
}

impl From<DriverError> for MidiError {
    fn from(e: DriverError) -> (r: MidiError)
        ensures
            r == MidiError::Util(e),
    {
        MidiError::Util(e)
    }
}

impl vstd::std_specs::convert::FromSpecImpl<DriverError> for MidiError {
    open spec fn obeys_from_spec() -> bool {
        true
    }

    open spec fn from_spec(e: DriverError) -> MidiError {
        MidiError::Util(e)
    }
}

} // verus!
