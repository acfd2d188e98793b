//! Musical position from external clocks: MIDI clock with song position
//! pointers, MIDI time code quarter frames, and an OSC transport.
//!
//! Positions are kept as whole counts (clock pulses, ticks of 1/960 of a
//! quarter note, time-code fields); converting them to fractional beats
//! is left to the caller.
use vstd::prelude::*;

use crate::framework::text::str_eq;

verus! {

/// Which clock drives the beat position.
#[derive(Clone, Copy, Debug, PartialEq, Eq, Structural)]
pub enum TimingKind {
    /// The application's frame count.
    Frame,
    /// An OSC transport.
    Osc,
    /// MIDI clock with song position pointers.
    Midi,
    /// MIDI clock resynchronised by MIDI time code.
    Hybrid,
}

/// The clock a command-line argument selects: `osc`, `midi` or `hybrid`,
/// and the frame count for anything else.
pub open spec fn timing_kind_spec(arg: Seq<char>) -> TimingKind {
    if arg == "osc"@ {
        TimingKind::Osc
    } else if arg == "midi"@ {
        TimingKind::Midi
    } else if arg == "hybrid"@ {
        TimingKind::Hybrid
    } else {
        TimingKind::Frame
    }
}

/// The clock a command-line argument selects (see [`timing_kind_spec`]).
pub fn timing_kind(arg: &str) -> (r: TimingKind)
    ensures
        r == timing_kind_spec(arg@),
{
    if str_eq(arg, "osc") {
        TimingKind::Osc
    } else if str_eq(arg, "midi") {
        TimingKind::Midi
    } else if str_eq(arg, "hybrid") {
        TimingKind::Hybrid
    } else {
        TimingKind::Frame
    }
}

/// MIDI timing clock: 24 per quarter note.
pub const CLOCK: u8 = 0xF8;

/// MIDI start: playback restarts from the song position.
pub const START: u8 = 0xFA;

/// MIDI continue.
pub const CONTINUE: u8 = 0xFB;

/// MIDI stop.
pub const STOP: u8 = 0xFC;

/// MIDI song position pointer, in sixteenth notes.
pub const SONG_POSITION: u8 = 0xF2;

/// MIDI time code quarter frame.
pub const MTC_QUARTER_FRAME: u8 = 0xF1;

/// Clock pulses per quarter note.
pub const PULSES_PER_QUARTER_NOTE: u32 = 24;

/// Ticks per quarter note.
pub const TICKS_PER_QUARTER_NOTE: u32 = 960;

/// The position of a MIDI-clock-driven transport.
pub ghost struct ClockModel {
    pub clock_count: u32,
    pub song_position: u32,
}

/// The 14-bit song position of a song position pointer, in sixteenth notes.
pub open spec fn spp_sixteenths(lsb: u8, msb: u8) -> u32 {
    (((msb as u32) << 7u32) | (lsb as u32)) as u32
}

/// A message from the clock port: timing clocks count up (wrapping), a
/// song position pointer (when followed) moves the song position, in
/// ticks, and restarts the count, and a start restarts the count.
pub open spec fn clock_step(follow_spp: bool, s: ClockModel, msg: Seq<u8>) -> ClockModel {
    if msg.len() < 1 {
        s
    } else if msg[0] == CLOCK {
        ClockModel {
            clock_count: if s.clock_count == u32::MAX {
                0
            } else {
                (s.clock_count + 1) as u32
            },
            ..s
        }
    } else if msg[0] == SONG_POSITION && follow_spp {
        ClockModel {
            clock_count: 0,
            song_position: (spp_sixteenths(msg[1], msg[2]) * (TICKS_PER_QUARTER_NOTE / 4)) as u32,
        }
    } else if msg[0] == START {
        ClockModel { clock_count: 0, ..s }
    } else {
        s
    }
}

/// A transport driven by MIDI clock and, optionally, song position
/// pointers.
pub struct MidiClock {
    clock_count: u32,
    song_position: u32,
    follow_song_position_messages: bool,
}

impl MidiClock {
    pub closed spec fn model(self) -> ClockModel {
        ClockModel { clock_count: self.clock_count, song_position: self.song_position }
    }

    pub closed spec fn follows_song_position(self) -> bool {
        self.follow_song_position_messages
    }

    /// A transport at the start, following song position pointers or not.
    pub fn new(follow_song_position_messages: bool) -> (r: Self)
        ensures
            r.model() == (ClockModel { clock_count: 0, song_position: 0 }),
            r.follows_song_position() == follow_song_position_messages,
    {
        MidiClock { clock_count: 0, song_position: 0, follow_song_position_messages }
    }

    /// Clock pulses since the last start or song position pointer.
    pub fn clock_count(&self) -> (r: u32)
        ensures
            r == self.model().clock_count,
    {
        self.clock_count
    }

    /// The song position, in ticks of 1/960 of a quarter note.
    pub fn song_position(&self) -> (r: u32)
        ensures
            r == self.model().song_position,
    {
        self.song_position
    }

    /// Whether song position pointers move this transport.
    pub fn follow_song_position_messages(&self) -> (r: bool)
        ensures
            r == self.follows_song_position(),
    {
        self.follow_song_position_messages
    }

    /// Whether `msg` is complete: a followed song position pointer has its
    /// two data bytes.
    pub open spec fn accepts(self, msg: Seq<u8>) -> bool {
        msg.len() >= 1 && msg[0] == SONG_POSITION && self.follows_song_position() ==> msg.len() >= 3
    }

    /// Whether `msg` is complete (see [`Self::accepts`]).
    pub fn is_complete(&self, msg: &[u8]) -> (r: bool)
        ensures
            r == self.accepts(msg@),
    {
        !(msg.len() >= 1 && msg[0] == SONG_POSITION && self.follow_song_position_messages) || msg.len() >= 3
    }

    /// Handles a message from the clock port.
    pub fn handle_message(&mut self, msg: &[u8])
        requires
            old(self).accepts(msg@),
        ensures
            final(self).follows_song_position() == old(self).follows_song_position(),
            final(self).model() == clock_step(old(self).follows_song_position(), old(self).model(), msg@),
    {
        if msg.len() < 1 {
            return;
        }
        let status = msg[0];
        if status == CLOCK {
            self.clock_count = self.clock_count.wrapping_add(1);
        } else if status == SONG_POSITION {
            if !self.follow_song_position_messages {
                return;
            }
            let lsb = msg[1] as u32;
            let msb = msg[2] as u32;
            let position = (msb << 7u32) | lsb;
            proof {
                assert(msb < 256 && lsb < 256 ==> (msb << 7u32) | lsb < 32768) by (bit_vector);
                assert(position < 32768);
                assert(TICKS_PER_QUARTER_NOTE / 4 == 240);
                assert(position * 240 < 0x1_0000_0000) by (nonlinear_arith)
                    requires
                        position < 32768,
                ;
            }
            self.song_position = position * (TICKS_PER_QUARTER_NOTE / 4);
            self.clock_count = 0;
        } else if status == START {
            self.clock_count = 0;
        }
    }

    /// Moves the transport to `song_position` ticks and `clock_count`
    /// pulses, as a resynchronisation from time code does.
    pub fn resync(&mut self, song_position: u32, clock_count: u32)
        ensures
            final(self).follows_song_position() == old(self).follows_song_position(),
            final(self).model() == (ClockModel { clock_count, song_position }),
    {
        self.song_position = song_position;
        self.clock_count = clock_count;
    }
}

/// A song position pointer sets the position to its sixteenths, at 240
/// ticks each, and restarts the pulse count, whatever the transport held.
pub proof fn law_spp_sets_position(s: ClockModel, lsb: u8, msb: u8, rest: Seq<u8>)
    requires
        lsb < 128,
        msb < 128,
    ensures
        clock_step(true, s, seq![SONG_POSITION, lsb, msb] + rest) == (ClockModel {
            clock_count: 0,
            song_position: ((msb * 128 + lsb) * 240) as u32,
        }),
{
    let m = seq![SONG_POSITION, lsb, msb] + rest;
    assert(m[0] == SONG_POSITION && m[1] == lsb && m[2] == msb);
    assert(lsb < 128 && msb < 128 ==> ((msb as u32) << 7u32) | (lsb as u32) == (msb as u32) * 128 + (lsb as u32))
        by (bit_vector);
}

/// The frame rate that a full time-code frame announces.
#[derive(Clone, Copy, Debug, PartialEq, Eq, Structural)]
pub enum MtcRate {
    Fps24,
    Fps25,
    /// 29.97 frames per second, drop-frame.
    Fps2997Drop,
    Fps30,
}

/// The time-code fields, each held as a byte assembled from two nibbles.
pub ghost struct MtcModel {
    pub hours: u32,
    pub minutes: u32,
    pub seconds: u32,
    pub frames: u32,
}

/// `x` with its low nibble replaced by `v`.
pub open spec fn with_low_nibble(x: u32, v: u8) -> u32 {
    ((x % 256) / 16 * 16 + v) as u32
}

/// `x` with its high nibble replaced by `v`.
pub open spec fn with_high_nibble(x: u32, v: u8) -> u32 {
    (v * 16 + x % 16) as u32
}

/// The piece (0 to 7) that a quarter frame's data byte carries.
pub open spec fn piece_of(data: u8) -> u8 {
    ((data / 16) % 8) as u8
}

/// The nibble that a quarter frame's data byte carries.
pub open spec fn nibble_of(data: u8) -> u8 {
    (data % 16) as u8
}

/// The rate that the last piece announces, from bits 2 and 3 of its nibble.
pub open spec fn rate_of(v: u8) -> MtcRate {
    let code = (v / 4) % 4;
    if code == 0 {
        MtcRate::Fps24
    } else if code == 1 {
        MtcRate::Fps25
    } else if code == 2 {
        MtcRate::Fps2997Drop
    } else {
        MtcRate::Fps30
    }
}

/// A quarter frame: pieces 0 to 6 fill the low and high nibbles of frames,
/// seconds, minutes and the low nibble of hours; piece 7 completes the
/// hours with bit 0 of its nibble, keeps five bits of them, and announces
/// the rate. Other messages change nothing.
#[verifier::opaque]
pub open spec fn mtc_step(s: MtcModel, msg: Seq<u8>) -> (MtcModel, Option<MtcRate>) {
    if msg.len() < 2 || msg[0] != MTC_QUARTER_FRAME {
        (s, None)
    } else {
        let p = piece_of(msg[1]);
        let v = nibble_of(msg[1]);
        if p == 0 {
            (MtcModel { frames: with_low_nibble(s.frames, v), ..s }, None)
        } else if p == 1 {
            (MtcModel { frames: with_high_nibble(s.frames, v), ..s }, None)
        } else if p == 2 {
            (MtcModel { seconds: with_low_nibble(s.seconds, v), ..s }, None)
        } else if p == 3 {
            (MtcModel { seconds: with_high_nibble(s.seconds, v), ..s }, None)
        } else if p == 4 {
            (MtcModel { minutes: with_low_nibble(s.minutes, v), ..s }, None)
        } else if p == 5 {
            (MtcModel { minutes: with_high_nibble(s.minutes, v), ..s }, None)
        } else if p == 6 {
            (MtcModel { hours: with_low_nibble(s.hours, v), ..s }, None)
        } else {
            (MtcModel { hours: ((v % 2) * 16 + s.hours % 16) as u32, ..s }, Some(rate_of(v)))
        }
    }
}

/// A quarter-frame message carrying `nibble` as piece `piece`.
pub open spec fn quarter_frame(piece: u8, nibble: u8) -> Seq<u8> {
    seq![MTC_QUARTER_FRAME, (piece * 16 + nibble) as u8]
}

/// The eight quarter frames of time code `h:m:s:f` at rate code `rc`, in
/// order.
pub open spec fn full_frame(h: u8, m: u8, sec: u8, f: u8, rc: u8) -> Seq<Seq<u8>> {
    seq![
        quarter_frame(0, f % 16),
        quarter_frame(1, f / 16),
        quarter_frame(2, sec % 16),
        quarter_frame(3, sec / 16),
        quarter_frame(4, m % 16),
        quarter_frame(5, m / 16),
        quarter_frame(6, h % 16),
        quarter_frame(7, (rc * 4 + h / 16) as u8),
    ]
}

/// The decoder after the messages `msgs`, and what the last one returned.
#[verifier::opaque]
pub open spec fn mtc_feed(s: MtcModel, msgs: Seq<Seq<u8>>) -> (MtcModel, Option<MtcRate>)
    decreases msgs.len(),
{
    if msgs.len() == 0 {
        (s, None)
    } else {
        let (s1, r1) = mtc_step(s, msgs[0]);
        if msgs.len() == 1 {
            (s1, r1)
        } else {
            mtc_feed(s1, msgs.drop_first())
        }
    }
}

/// Eight quarter frames, pieces 0 to 7, carrying a time code (hours below
/// 32) set the decoder to that time code, whatever it held, and the last
/// one announces the rate of the rate code.
pub proof fn law_full_frame(s: MtcModel, h: u8, m: u8, sec: u8, f: u8, rc: u8)
    requires
        h < 32,
        rc < 4,
    ensures
        mtc_feed(s, full_frame(h, m, sec, f, rc)).0 == (MtcModel {
            hours: h as u32,
            minutes: m as u32,
            seconds: sec as u32,
            frames: f as u32,
        }),
        mtc_feed(s, full_frame(h, m, sec, f, rc)).1 == Some(rate_of((rc * 4 + h / 16) as u8)),
        rate_of((rc * 4 + h / 16) as u8) == (if rc == 0 {
            MtcRate::Fps24
        } else if rc == 1 {
            MtcRate::Fps25
        } else if rc == 2 {
            MtcRate::Fps2997Drop
        } else {
            MtcRate::Fps30
        }),
{
    let msgs = full_frame(h, m, sec, f, rc);
    let s1 = lemma_quarter_frame(s, 0, f % 16);
    let s2 = lemma_quarter_frame(s1, 1, f / 16);
    let s3 = lemma_quarter_frame(s2, 2, sec % 16);
    let s4 = lemma_quarter_frame(s3, 3, sec / 16);
    let s5 = lemma_quarter_frame(s4, 4, m % 16);
    let s6 = lemma_quarter_frame(s5, 5, m / 16);
    let s7 = lemma_quarter_frame(s6, 6, h % 16);
    let s8 = lemma_quarter_frame(s7, 7, (rc * 4 + h / 16) as u8);
    lemma_byte_from_nibbles(s.frames, f);
    lemma_byte_from_nibbles(s2.seconds, sec);
    lemma_byte_from_nibbles(s4.minutes, m);
    assert(s8.hours == h) by {
        assert(((rc * 4 + h / 16) as u8) % 2 == h / 16);
    }
    assert(s8.frames == f && s8.seconds == sec && s8.minutes == m);
    assert(msgs.len() == 8);
    assert(msgs[0] == quarter_frame(0, f % 16));
    assert(msgs[1] == quarter_frame(1, f / 16));
    assert(msgs[2] == quarter_frame(2, sec % 16));
    assert(msgs[3] == quarter_frame(3, sec / 16));
    assert(msgs[4] == quarter_frame(4, m % 16));
    assert(msgs[5] == quarter_frame(5, m / 16));
    assert(msgs[6] == quarter_frame(6, h % 16));
    assert(msgs[7] == quarter_frame(7, (rc * 4 + h / 16) as u8));
    assert(msgs.skip(0) =~= msgs);
    lemma_feed_skip(s, msgs, 0);
    lemma_feed_skip(s1, msgs, 1);
    lemma_feed_skip(s2, msgs, 2);
    lemma_feed_skip(s3, msgs, 3);
    lemma_feed_skip(s4, msgs, 4);
    lemma_feed_skip(s5, msgs, 5);
    lemma_feed_skip(s6, msgs, 6);
    lemma_feed_last(s7, msgs);
    assert(((rc * 4 + h / 16) as u8 / 4) % 4 == rc);
}

proof fn lemma_feed_last(st: MtcModel, msgs: Seq<Seq<u8>>)
    requires
        msgs.len() >= 1,
    ensures
        mtc_feed(st, msgs.skip(msgs.len() - 1)) == mtc_step(st, msgs[msgs.len() - 1]),
{
    reveal(mtc_feed);
    assert(msgs.skip(msgs.len() - 1)[0] == msgs[msgs.len() - 1]);
}

/// One quarter frame carrying nibble `n` as piece `k`.
proof fn lemma_quarter_frame(st: MtcModel, k: u8, n: u8) -> (r: MtcModel)
    requires
        k < 8,
        n < 16,
    ensures
        r == mtc_step(st, quarter_frame(k, n)).0,
        k == 0 ==> r == (MtcModel { frames: with_low_nibble(st.frames, n), ..st }),
        k == 1 ==> r == (MtcModel { frames: with_high_nibble(st.frames, n), ..st }),
        k == 2 ==> r == (MtcModel { seconds: with_low_nibble(st.seconds, n), ..st }),
        k == 3 ==> r == (MtcModel { seconds: with_high_nibble(st.seconds, n), ..st }),
        k == 4 ==> r == (MtcModel { minutes: with_low_nibble(st.minutes, n), ..st }),
        k == 5 ==> r == (MtcModel { minutes: with_high_nibble(st.minutes, n), ..st }),
        k == 6 ==> r == (MtcModel { hours: with_low_nibble(st.hours, n), ..st }),
        k == 7 ==> r == (MtcModel { hours: ((n % 2) * 16 + st.hours % 16) as u32, ..st }),
        k == 7 ==> mtc_step(st, quarter_frame(k, n)).1 == Some(rate_of(n)),
{
    reveal(mtc_step);
    let d = (k * 16 + n) as u8;
    assert(piece_of(d) == k && nibble_of(d) == n) by (nonlinear_arith)
        requires
            k < 8,
            n < 16,
            d == k * 16 + n,
    ;
    mtc_step(st, quarter_frame(k, n)).0
}

/// Setting the low and then the high nibble of any value to those of a
/// byte gives the byte.
proof fn lemma_byte_from_nibbles(x: u32, b: u8)
    ensures
        with_high_nibble(with_low_nibble(x, b % 16), b / 16) == b,
        with_low_nibble(x, b % 16) % 16 == b % 16,
{
    let y = with_low_nibble(x, b % 16);
    assert(y % 16 == b % 16) by (nonlinear_arith)
        requires
            y == (x % 256) / 16 * 16 + b % 16,
    ;
}

proof fn lemma_feed_skip(st: MtcModel, msgs: Seq<Seq<u8>>, k: int)
    requires
        0 <= k < msgs.len() - 1,
    ensures
        mtc_feed(st, msgs.skip(k)) == mtc_feed(mtc_step(st, msgs[k]).0, msgs.skip(k + 1)),
{
    reveal(mtc_feed);
    assert(msgs.skip(k).drop_first() =~= msgs.skip(k + 1));
    assert(msgs.skip(k)[0] == msgs[k]);
}

/// Assembles MIDI time code from quarter-frame messages.
pub struct MtcDecoder {
    hours: u32,
    minutes: u32,
    seconds: u32,
    frames: u32,
}

proof fn lemma_nibbles(x: u32, v: u8)
    requires
        x < 256,
        v < 16,
    ensures
        (x & 0xF0u32) | (v as u32) == with_low_nibble(x, v),
        (x & 0x0Fu32) | ((v as u32) << 4u32) == with_high_nibble(x, v),
        with_low_nibble(x, v) < 256,
        with_high_nibble(x, v) < 256,
{
    assert(x < 256 && v < 16 ==> (x & 0xF0u32) | (v as u32) == (x / 16) * 16 + (v as u32)) by (bit_vector);
    assert(x < 256 && v < 16 ==> (x & 0x0Fu32) | ((v as u32) << 4u32) == (v as u32) * 16 + x % 16)
        by (bit_vector);
}

impl MtcDecoder {
    pub closed spec fn model(self) -> MtcModel {
        MtcModel { hours: self.hours, minutes: self.minutes, seconds: self.seconds, frames: self.frames }
    }

    /// Every field is a byte.
    pub closed spec fn wf(self) -> bool {
        self.hours < 256 && self.minutes < 256 && self.seconds < 256 && self.frames < 256
    }

    /// Time code 00:00:00:00.
    pub fn new() -> (r: Self)
        ensures
            r.wf(),
            r.model() == (MtcModel { hours: 0, minutes: 0, seconds: 0, frames: 0 }),
    {
        MtcDecoder { hours: 0, minutes: 0, seconds: 0, frames: 0 }
    }

    /// The hours, minutes, seconds and frames received so far.
    pub fn time(&self) -> (r: (u32, u32, u32, u32))
        ensures
            r == (self.model().hours, self.model().minutes, self.model().seconds, self.model().frames),
    {
        (self.hours, self.minutes, self.seconds, self.frames)
    }

    /// Handles a message from the time-code port; returns the rate when the
    /// message completes a frame.
    pub fn handle_message(&mut self, msg: &[u8]) -> (r: Option<MtcRate>)
        requires
            old(self).wf(),
        ensures
            final(self).wf(),
            (final(self).model(), r) == mtc_step(old(self).model(), msg@),
    {
        reveal(mtc_step);
        if msg.len() < 2 || msg[0] != MTC_QUARTER_FRAME {
            return None;
        }
        let data = msg[1];
        let piece = (data >> 4u8) & 0x7;
        let value = data & 0xF;
        proof {
            assert((data >> 4u8) & 0x7u8 == (data / 16) % 8) by (bit_vector);
            assert(data & 0xFu8 == data % 16) by (bit_vector);
            lemma_nibbles(self.frames, value);
            lemma_nibbles(self.seconds, value);
            lemma_nibbles(self.minutes, value);
            lemma_nibbles(self.hours, value);
        }
        if piece == 0 {
            self.frames = (self.frames & 0xF0) | value as u32;
        } else if piece == 1 {
            self.frames = (self.frames & 0x0F) | ((value as u32) << 4u32);
        } else if piece == 2 {
            self.seconds = (self.seconds & 0xF0) | value as u32;
        } else if piece == 3 {
            self.seconds = (self.seconds & 0x0F) | ((value as u32) << 4u32);
        } else if piece == 4 {
            self.minutes = (self.minutes & 0xF0) | value as u32;
        } else if piece == 5 {
            self.minutes = (self.minutes & 0x0F) | ((value as u32) << 4u32);
        } else if piece == 6 {
            self.hours = (self.hours & 0xF0) | value as u32;
        } else {
            let hours_lsb = self.hours & 0x0F;
            let hours_msb = value & 0x3;
            let rate_code = (value >> 2u8) & 0x3;
            proof {
                let h = self.hours;
                assert(h < 256 ==> h & 0x0Fu32 == h % 16) by (bit_vector);
            }
            let hl: u8 = hours_lsb as u8;
            let full_hours = ((hours_msb << 4u8) | hl) & 0x1F;
            proof {
                assert(value < 16 && hl < 16 ==> (((value & 0x3u8) << 4u8) | hl) & 0x1Fu8 == (value % 2) * 16 + hl)
                    by (bit_vector);
                assert(value < 16 ==> (value >> 2u8) & 0x3u8 == (value / 4) % 4) by (bit_vector);
            }
            self.hours = full_hours as u32;
            let rate = if rate_code == 0 {
                MtcRate::Fps24
            } else if rate_code == 1 {
                MtcRate::Fps25
            } else if rate_code == 2 {
                MtcRate::Fps2997Drop
            } else {
                MtcRate::Fps30
            };
            return Some(rate);
        }
        None
    }
}

/// The position that an OSC transport message announces: whether the
/// transport plays, and the bar and beat counted from zero (the message
/// counts them from one).
pub fn transport_position(playing: i32, bar: i32, beat: i32) -> (r: (bool, u32, u32))
    requires
        bar != 0,
        beat != 0,
    ensures
        r.0 == (playing != 0),
        r.1 == (bar as u32) - 1,
        r.2 == (beat as u32) - 1,
{
    proof {
        assert(bar != 0 ==> bar as u32 >= 1) by (bit_vector);
        assert(beat != 0 ==> beat as u32 >= 1) by (bit_vector);
    }
    (playing != 0, bar as u32 - 1, beat as u32 - 1)
}


/// A transport that does not follow song position pointers ignores them:
/// the pulse count and the song position stay as they were, so the count
/// is reset only by a start.
pub proof fn law_spp_ignored_unless_followed(s: ClockModel, lsb: u8, msb: u8, rest: Seq<u8>)
    ensures
        clock_step(false, s, seq![SONG_POSITION, lsb, msb] + rest) == s,
{
    let m = seq![SONG_POSITION, lsb, msb] + rest;
    assert(m[0] == SONG_POSITION);
}

/// Only a start or a followed song position pointer sets the pulse count
/// to zero; a timing clock counts one pulse up (wrapping), and any other
/// message leaves the transport as it was.
pub proof fn law_clock_count_resets(follow_spp: bool, s: ClockModel, msg: Seq<u8>)
    requires
        msg.len() >= 1,
    ensures
        msg[0] == CLOCK ==> clock_step(follow_spp, s, msg).clock_count == (if s.clock_count == u32::MAX {
            0
        } else {
            s.clock_count + 1
        }) && clock_step(follow_spp, s, msg).song_position == s.song_position,
        msg[0] == START ==> clock_step(follow_spp, s, msg) == (ClockModel { clock_count: 0, ..s }),
        msg[0] != CLOCK && msg[0] != START && !(msg[0] == SONG_POSITION && follow_spp) ==> clock_step(
            follow_spp,
            s,
            msg,
        ) == s,
{
}
} // verus!
