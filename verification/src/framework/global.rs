//! Settings shared by the whole application: the MIDI ports in use.
use vstd::prelude::*;

use crate::config::{MIDI_CLOCK_PORT, MIDI_CONTROL_IN_PORT, MIDI_CONTROL_OUT_PORT};

verus! {

/// The MIDI ports that clock and control changes are read from, and that
/// control changes are sent to.
pub struct Global {
    midi_clock_port: String,
    midi_control_in_port: String,
    midi_control_out_port: String,
}

impl Global {
    pub closed spec fn clock_port(self) -> Seq<char> {
        self.midi_clock_port@
    }

    pub closed spec fn control_in_port(self) -> Seq<char> {
        self.midi_control_in_port@
    }

    pub closed spec fn control_out_port(self) -> Seq<char> {
        self.midi_control_out_port@
    }
}

impl Default for Global {
    /// The ports named in the configuration.
    fn default() -> (r: Self)
        ensures
            r.clock_port() == MIDI_CLOCK_PORT@,
            r.control_in_port() == MIDI_CONTROL_IN_PORT@,
            r.control_out_port() == MIDI_CONTROL_OUT_PORT@,
    {
        Global {
            midi_clock_port: MIDI_CLOCK_PORT.to_owned(),
            midi_control_in_port: MIDI_CONTROL_IN_PORT.to_owned(),
            midi_control_out_port: MIDI_CONTROL_OUT_PORT.to_owned(),
        }
    }
}

/// The port that clock is read from.
pub fn midi_clock_port(global: &Global) -> (r: String)
    ensures
        r@ == global.clock_port(),
{
    global.midi_clock_port.clone()
}

/// Reads clock from `port` from now on.
pub fn set_midi_clock_port(global: &mut Global, port: String)
    ensures
        final(global).clock_port() == port@,
        final(global).control_in_port() == old(global).control_in_port(),
        final(global).control_out_port() == old(global).control_out_port(),
{
    global.midi_clock_port = port;
}

/// The port that control changes are read from.
pub fn midi_control_in_port(global: &Global) -> (r: String)
    ensures
        r@ == global.control_in_port(),
{
    global.midi_control_in_port.clone()
}

/// Reads control changes from `port` from now on.
pub fn set_midi_control_in_port(global: &mut Global, port: String)
    ensures
        final(global).control_in_port() == port@,
        final(global).clock_port() == old(global).clock_port(),
        final(global).control_out_port() == old(global).control_out_port(),
{
    global.midi_control_in_port = port;
}

/// The port that control changes are sent to.
pub fn midi_control_out_port(global: &Global) -> (r: String)
    ensures
        r@ == global.control_out_port(),
{
    global.midi_control_out_port.clone()
}

/// Sends control changes to `port` from now on.
pub fn set_midi_control_out_port(global: &mut Global, port: String)
    ensures
        final(global).control_out_port() == port@,
        final(global).clock_port() == old(global).clock_port(),
        final(global).control_in_port() == old(global).control_in_port(),
{
    global.midi_control_out_port = port;
}

} // verus!
