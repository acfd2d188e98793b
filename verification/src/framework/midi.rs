//! MIDI message classification and the kinds of MIDI connections.
use vstd::prelude::*;

verus! {

/// The purpose of a MIDI input connection; at most one connection of each
/// kind is open at a time.
#[derive(Clone, Copy, Debug, Eq, Hash, PartialEq, Structural)]
pub enum ConnectionType {
    Clock,
    Control,
    GlobalStartStop,
}

impl ConnectionType {
    /// The name of the connection, as it is shown to the MIDI system.
    pub open spec fn spec_name(self) -> Seq<char> {
        match self {
            ConnectionType::Clock => "Clock"@,
            ConnectionType::Control => "Control"@,
            ConnectionType::GlobalStartStop => "GlobalStartStop"@,
        }
    }

    /// The name of the connection, as it is shown to the MIDI system.
    pub fn name(&self) -> (r: String)
        ensures
            r@ == self.spec_name(),
    {
        match self {
            ConnectionType::Clock => "Clock".to_owned(),
            ConnectionType::Control => "Control".to_owned(),
            ConnectionType::GlobalStartStop => "GlobalStartStop".to_owned(),
        }
    }
}

/// Which side of the MIDI system to list ports of.
#[derive(Clone, Copy, Debug, Eq, PartialEq, Structural)]
pub enum InputsOrOutputs {
    Inputs,
    Outputs,
}

/// A port's position in the system's list, and its name.
pub type PortIndexAndName = (usize, String);

/// The status byte of a control-change message: its high nibble is `0xB`.
pub open spec fn is_cc_status(status: u8) -> bool {
    status / 16 == 11
}

/// The channel (0 to 15) that a status byte addresses: its low nibble.
pub open spec fn status_channel(status: u8) -> u8 {
    (status % 16) as u8
}

/// Whether `status` is the status byte of a control-change message.
pub fn is_control_change(status: u8) -> (r: bool)
    ensures
        r == is_cc_status(status),
{
    proof {
        assert((status & 0xF0u8 == 0xB0u8) == (status / 16 == 11)) by (bit_vector);
    }
    status & 0xF0 == 0xB0
}

/// The channel (0 to 15) that `status` addresses.
pub fn channel_of(status: u8) -> (r: u8)
    ensures
        r == status_channel(status),
        r < 16,
{
    proof {
        assert(status & 0x0Fu8 == status % 16) by (bit_vector);
    }
    status & 0x0F
}

/// The control-change message that sets controller `cc` of `channel` to
/// `value`.
pub fn control_change(channel: u8, cc: u8, value: u8) -> (r: [u8; 3])
    requires
        channel <= 79,
    ensures
        r@ == seq![(176 + channel) as u8, cc, value],
        channel < 16 ==> is_cc_status(r[0]) && status_channel(r[0]) == channel,
{
    let r = [176 + channel, cc, value];
    proof {
        assert(r@ =~= seq![(176 + channel) as u8, cc, value]);
    }
    r
}

} // verus!
