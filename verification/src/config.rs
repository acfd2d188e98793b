//! Device names and ports the framework connects to.
use vstd::prelude::*;

verus! {

/// The UDP port that OSC messages are received on.
pub const OSC_PORT: u16 = 2346;

/// The audio device used for single-channel, multiband audio processing.
pub const AUDIO_DEVICE_NAME: &'static str = "Lattice";

/// The sample rate of the audio device.
pub const AUDIO_DEVICE_SAMPLE_RATE: usize = 48_000;

/// The audio device used for control-rate audio processing.
pub const CV_DEVICE_NAME: &'static str = "Lattice16";

/// The number of channels, from channel 0, processed for control voltage.
pub const CV_DEVICE_CHANNEL_COUNT: usize = 16;

/// The sample rate of the control-voltage device.
pub const CV_DEVICE_SAMPLE_RATE: usize = 48_000;

/// The MIDI port used for control data and clock.
pub const MIDI_INPUT_PORT: &'static str = "IAC Driver Lattice In";

/// The MIDI port that clock is read from by default.
pub const MIDI_CLOCK_PORT: &'static str = "IAC Driver Lattice In";

/// The MIDI port that control changes are read from by default.
pub const MIDI_CONTROL_IN_PORT: &'static str = "IAC Driver Lattice In";

/// The MIDI port that control changes are sent to by default.
pub const MIDI_CONTROL_OUT_PORT: &'static str = "IAC Driver Lattice In";

} // verus!
