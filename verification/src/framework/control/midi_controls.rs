//! Decoding of MIDI control-change messages into control updates.
//!
//! Each control listens to one controller (`cc`) of one channel. A plain
//! controller carries a 7-bit value. In high-resolution mode, a controller
//! from 0 to 31 carries the most significant 7 bits (MSB) of a 14-bit value
//! and controller `cc + 32` of the same channel carries the least significant
//! bits (LSB); the MSB is held until its LSB arrives, and the pair counts
//! only when the LSB comes more than 5 ms after the MSB.
use vstd::prelude::*;

use crate::framework::midi::{channel_of, is_cc_status, is_control_change, status_channel};

verus! {

/// A control that listens to controller `cc` of `channel`.
pub struct CcRoute {
    pub name: String,
    pub channel: u8,
    pub cc: u8,
}

/// What a control-change message did.
#[allow(inconsistent_fields)]
pub enum CcEvent {
    /// Nothing: not a control change, no control listens to it, or an LSB
    /// with no MSB before it.
    Ignored,
    /// A 7-bit value for the control `name`.
    Value7 { name: String, value: u8 },
    /// An MSB was held; `replaced` when an earlier MSB of the same controller
    /// was still waiting for its LSB.
    MsbStored { replaced: bool },
    /// A 14-bit value for the control `name`.
    Value14 { name: String, value: u16 },
    /// An LSB came within 5 ms of its MSB; the pair was dropped.
    PairTooClose,
}

/// The meaning of a [`CcEvent`].
pub ghost enum CcStep {
    Ignored,
    Value7(Seq<char>, u8),
    MsbStored(bool),
    Value14(Seq<char>, u16),
    PairTooClose,
}

impl CcEvent {
    pub open spec fn model(self) -> CcStep {
        match self {
            CcEvent::Ignored => CcStep::Ignored,
            CcEvent::Value7 { name, value } => CcStep::Value7(name@, value),
            CcEvent::MsbStored { replaced } => CcStep::MsbStored(replaced),
            CcEvent::Value14 { name, value } => CcStep::Value14(name@, value),
            CcEvent::PairTooClose => CcStep::PairTooClose,
        }
    }
}

/// Whether route `r` listens to controller `cc` of channel `ch`.
pub open spec fn route_matches(r: CcRoute, ch: u8, cc: u8) -> bool {
    r.channel == ch && r.cc == cc
}

/// The first route that listens to controller `cc` of channel `ch`.
pub open spec fn route_index(routes: Seq<CcRoute>, ch: u8, cc: u8) -> Option<int>
    decreases routes.len(),
{
    if routes.len() == 0 {
        None
    } else {
        match route_index(routes.drop_last(), ch, cc) {
            Some(i) => Some(i),
            None => if route_matches(routes.last(), ch, cc) {
                Some(routes.len() - 1)
            } else {
                None
            },
        }
    }
}

/// A message that is a complete control change: a control-change status
/// byte, a controller and a value.
pub open spec fn is_cc_message(msg: Seq<u8>) -> bool {
    msg.len() >= 3 && is_cc_status(msg[0])
}

/// The 14-bit value of an MSB/LSB pair.
pub open spec fn value_14bit(msb: u8, lsb: u8) -> u16 {
    ((msb as u16) << 7u16) | (lsb as u16)
}

/// A held MSB is more than 5 ms old: `ts` is in milliseconds and the MSB's
/// time in microseconds.
pub open spec fn pair_is_late(ts: u64, msb_ts: u64) -> bool {
    ts * 1000 - msb_ts > 5000
}

/// A message in plain (7-bit) mode.
pub open spec fn standard_step(routes: Seq<CcRoute>, msg: Seq<u8>) -> CcStep {
    if !is_cc_message(msg) {
        CcStep::Ignored
    } else {
        match route_index(routes, status_channel(msg[0]), msg[1]) {
            Some(i) => CcStep::Value7(routes[i].name@, msg[2]),
            None => CcStep::Ignored,
        }
    }
}

/// A message in high-resolution mode, at time `ts` (milliseconds): the
/// held MSBs afterwards, by channel and controller, with their times
/// (microseconds), and what the message did.
pub open spec fn hi_res_step(
    routes: Seq<CcRoute>,
    pending: Map<(u8, u8), (u64, u8)>,
    ts: u64,
    msg: Seq<u8>,
) -> (Map<(u8, u8), (u64, u8)>, CcStep) {
    if !is_cc_message(msg) {
        (pending, CcStep::Ignored)
    } else {
        let ch = status_channel(msg[0]);
        let cc = msg[1];
        let v = msg[2];
        match route_index(routes, ch, cc) {
            Some(i) => if cc > 31 {
                (pending, CcStep::Value7(routes[i].name@, v))
            } else {
                (pending.insert((ch, cc), (ts, v)), CcStep::MsbStored(pending.contains_key((ch, cc))))
            },
            None => if 32 <= cc <= 63 {
                let key = (ch, (cc - 32) as u8);
                if !pending.contains_key(key) {
                    (pending, CcStep::Ignored)
                } else {
                    let rest = pending.remove(key);
                    if pair_is_late(ts, pending[key].0) {
                        match route_index(routes, key.0, key.1) {
                            Some(j) => (rest, CcStep::Value14(routes[j].name@, value_14bit(pending[key].1, v))),
                            None => (rest, CcStep::Ignored),
                        }
                    } else {
                        (rest, CcStep::PairTooClose)
                    }
                }
            } else {
                (pending, CcStep::Ignored)
            },
        }
    }
}

/// Whether handling `msg` at time `ts` compares times forwards: an LSB may
/// not come before its MSB.
pub open spec fn timestamp_ok(
    routes: Seq<CcRoute>,
    pending: Map<(u8, u8), (u64, u8)>,
    ts: u64,
    msg: Seq<u8>,
) -> bool {
    is_cc_message(msg) && route_index(routes, status_channel(msg[0]), msg[1]) is None && 32 <= msg[1] <= 63
        && pending.contains_key((status_channel(msg[0]), (msg[1] - 32) as u8)) ==> pending[(
    status_channel(msg[0]), (msg[1] - 32) as u8)].0 <= ts * 1000
}

proof fn lemma_route_index_extends(routes: Seq<CcRoute>, ch: u8, cc: u8, j: int, i: int)
    requires
        0 <= j <= routes.len(),
        route_index(routes.take(j), ch, cc) == Some(i),
    ensures
        route_index(routes, ch, cc) == Some(i),
    decreases routes.len() - j,
{
    if j < routes.len() {
        assert(routes.take(j + 1).drop_last() =~= routes.take(j));
        lemma_route_index_extends(routes, ch, cc, j + 1, i);
    } else {
        assert(routes.take(j) =~= routes);
    }
}

proof fn lemma_route_index_valid(routes: Seq<CcRoute>, ch: u8, cc: u8)
    ensures
        route_index(routes, ch, cc) matches Some(i) ==> 0 <= i < routes.len() && route_matches(routes[i], ch, cc),
    decreases routes.len(),
{
    if routes.len() > 0 {
        lemma_route_index_valid(routes.drop_last(), ch, cc);
    }
}

/// The first of `routes` that listens to controller `cc` of channel `ch`.
fn find_route(routes: &Vec<CcRoute>, ch: u8, cc: u8) -> (r: Option<usize>)
    ensures
        r matches Some(i) ==> route_index(routes@, ch, cc) == Some(i as int) && i < routes.len(),
        r is None ==> route_index(routes@, ch, cc) is None,
{
    let mut i: usize = 0;
    while i < routes.len()
        invariant
            0 <= i <= routes.len(),
            route_index(routes@.take(i as int), ch, cc) is None,
        decreases routes.len() - i,
    {
        assert(routes@.take(i + 1).drop_last() =~= routes@.take(i as int));
        if routes[i].channel == ch && routes[i].cc == cc {
            proof {
                lemma_route_index_extends(routes@, ch, cc, i + 1, i as int);
            }
            return Some(i);
        }
        i = i + 1;
    }
    assert(routes@.take(i as int) =~= routes@);
    None
}

/// The number of channels times the number of MSB controllers.
pub const PENDING_SLOTS: usize = 512;

/// Decodes the control-change messages of one MIDI input.
pub struct CcDecoder {
    routes: Vec<CcRoute>,
    /// The held MSB of channel `ch` and controller `cc` (below 32), with
    /// its time in microseconds, at `ch * 32 + cc`.
    slots: Vec<Option<(u64, u8)>>,
}

pub open spec fn slot_of(ch: u8, cc: u8) -> int {
    ch * 32 + cc
}

impl CcDecoder {
    pub closed spec fn routes(self) -> Seq<CcRoute> {
        self.routes@
    }

    /// The held MSBs, by channel and controller.
    pub closed spec fn pending(self) -> Map<(u8, u8), (u64, u8)> {
        Map::new(
            |k: (u8, u8)| k.0 < 16 && k.1 < 32 && self.slots@[slot_of(k.0, k.1)] is Some,
            |k: (u8, u8)| self.slots@[slot_of(k.0, k.1)]->0,
        )
    }

    /// Only controllers that some control listens to hold an MSB.
    pub closed spec fn wf(self) -> bool {
        &&& self.slots@.len() == PENDING_SLOTS
        &&& forall|ch: u8, cc: u8|
            ch < 16 && cc < 32 && #[trigger] self.slots@[slot_of(ch, cc)] is Some ==> route_index(
                self.routes@,
                ch,
                cc,
            ) is Some
    }

    /// A decoder for the controls `routes`, holding no MSB.
    pub fn new(routes: Vec<CcRoute>) -> (r: Self)
        ensures
            r.wf(),
            r.routes() == routes@,
            r.pending() == Map::<(u8, u8), (u64, u8)>::empty(),
    {
        let mut slots: Vec<Option<(u64, u8)>> = Vec::new();
        while slots.len() < PENDING_SLOTS
            invariant
                slots.len() <= PENDING_SLOTS,
                forall|k: int| 0 <= k < slots.len() ==> slots@[k] is None,
            decreases PENDING_SLOTS - slots.len(),
        {
            slots.push(None);
        }
        let r = CcDecoder { routes, slots };
        assert(r.pending() =~= Map::<(u8, u8), (u64, u8)>::empty());
        r
    }

    /// The controls of this decoder.
    pub fn routes_ref(&self) -> (r: &Vec<CcRoute>)
        ensures
            r@ == self.routes(),
    {
        &self.routes
    }

    /// Decodes `msg` in plain (7-bit) mode.
    pub fn decode_standard(&self, msg: &[u8]) -> (e: CcEvent)
        ensures
            e.model() == standard_step(self.routes(), msg@),
    {
        if msg.len() < 3 || !is_control_change(msg[0]) {
            return CcEvent::Ignored;
        }
        let ch = channel_of(msg[0]);
        match find_route(&self.routes, ch, msg[1]) {
            Some(i) => CcEvent::Value7 { name: self.routes[i].name.clone(), value: msg[2] },
            None => CcEvent::Ignored,
        }
    }

    /// Whether `msg` at time `ts` (milliseconds) may be handed to
    /// [`Self::decode_hi_res`]: an LSB may not come before its MSB.
    pub fn accepts_timestamp(&self, ts: u64, msg: &[u8]) -> (r: bool)
        requires
            self.wf(),
        ensures
            r == timestamp_ok(self.routes(), self.pending(), ts, msg@),
    {
        if msg.len() < 3 || !is_control_change(msg[0]) {
            return true;
        }
        let ch = channel_of(msg[0]);
        let cc = msg[1];
        if find_route(&self.routes, ch, cc).is_some() || cc < 32 || cc > 63 {
            return true;
        }
        let slot = ch as usize * 32 + (cc - 32) as usize;
        match self.slots[slot] {
            Some((msb_ts, _)) => msb_ts as u128 <= ts as u128 * 1000,
            None => true,
        }
    }

    /// Decodes `msg`, received at time `ts` (milliseconds), in
    /// high-resolution mode.
    pub fn decode_hi_res(&mut self, ts: u64, msg: &[u8]) -> (e: CcEvent)
        requires
            old(self).wf(),
            timestamp_ok(old(self).routes(), old(self).pending(), ts, msg@),
        ensures
            final(self).wf(),
            final(self).routes() == old(self).routes(),
            (final(self).pending(), e.model()) == hi_res_step(old(self).routes(), old(self).pending(), ts, msg@),
    {
        let ghost p0 = self.pending();
        if msg.len() < 3 || !is_control_change(msg[0]) {
            return CcEvent::Ignored;
        }
        let ch = channel_of(msg[0]);
        let cc = msg[1];
        let value = msg[2];
        proof {
            lemma_route_index_valid(self.routes@, ch, cc);
        }
        match find_route(&self.routes, ch, cc) {
            Some(i) => {
                if cc > 31 {
                    return CcEvent::Value7 { name: self.routes[i].name.clone(), value };
                }
                let slot = ch as usize * 32 + cc as usize;
                let replaced = self.slots[slot].is_some();
                self.slots.set(slot, Some((ts, value)));
                proof {
                    assert forall|c: u8, k: u8|
                        c < 16 && k < 32 && #[trigger] self.slots@[slot_of(c, k)] is Some implies route_index(
                        self.routes@,
                        c,
                        k,
                    ) is Some by {
                        if slot_of(c, k) != slot_of(ch, cc) {
                            assert(old(self).slots@[slot_of(c, k)] is Some);
                        } else {
                            assert(c == ch && k == cc);
                        }
                    }
                    assert forall|c: u8, k: u8| slot_of(c, k) == slot_of(ch, cc) && c < 16 && k < 32 implies c == ch
                        && k == cc by {}
                    assert(self.pending() =~= p0.insert((ch, cc), (ts, value)));
                }
                CcEvent::MsbStored { replaced }
            },
            None => {
                if cc < 32 || cc > 63 {
                    return CcEvent::Ignored;
                }
                let msb_cc = cc - 32;
                let slot = ch as usize * 32 + msb_cc as usize;
                match self.slots[slot] {
                    None => {
                        assert(!p0.contains_key((ch, msb_cc)));
                        CcEvent::Ignored
                    },
                    Some((msb_ts, msb)) => {
                        assert(p0.contains_key((ch, msb_cc)));
                        self.slots.set(slot, None);
                        proof {
                            assert forall|c: u8, k: u8|
                                c < 16 && k < 32 && #[trigger] self.slots@[slot_of(c, k)] is Some implies route_index(
                                self.routes@,
                                c,
                                k,
                            ) is Some by {
                                assert(old(self).slots@[slot_of(c, k)] is Some);
                            }
                            assert forall|c: u8, k: u8|
                                slot_of(c, k) == slot_of(ch, msb_cc) && c < 16 && k < 32 implies c == ch && k == msb_cc by {}
                            assert(self.pending() =~= p0.remove((ch, msb_cc)));
                        }
                        if ts as u128 * 1000 - msb_ts as u128 > 5000 {
                            let j = find_route(&self.routes, ch, msb_cc);
                            match j {
                                Some(j) => {
                                    let v14 = ((msb as u16) << 7u16) | (value as u16);
                                    CcEvent::Value14 { name: self.routes[j].name.clone(), value: v14 }
                                },
                                None => CcEvent::Ignored,
                            }
                        } else {
                            CcEvent::PairTooClose
                        }
                    },
                }
            },
        }
    }
}


/// For data bytes (below 128), the 14-bit value is the MSB's seven bits
/// followed by the LSB's: `msb * 128 + lsb`, below 16384.
pub proof fn law_value_14bit(msb: u8, lsb: u8)
    requires
        msb < 128,
        lsb < 128,
    ensures
        value_14bit(msb, lsb) == msb * 128 + lsb,
        value_14bit(msb, lsb) < 16384,
{
    assert(msb < 128 && lsb < 128 ==> ((msb as u16) << 7u16) | (lsb as u16) == (msb as u16) * 128 + (lsb as u16))
        by (bit_vector);
}

/// In high-resolution mode, an MSB for a control, followed by the LSB of
/// the same channel more than 5 ms later, sets that control to the 14-bit
/// value of the pair and holds nothing more for it; an LSB within 5 ms
/// drops the pair.
pub proof fn law_msb_then_lsb(
    routes: Seq<CcRoute>,
    pending: Map<(u8, u8), (u64, u8)>,
    ch: u8,
    cc: u8,
    msb: u8,
    lsb: u8,
    t1: u64,
    t2: u64,
)
    requires
        ch < 16,
        cc < 32,
        route_index(routes, ch, cc) is Some,
        route_index(routes, ch, (cc + 32) as u8) is None,
    ensures
        ({
            let (p1, e1) = hi_res_step(routes, pending, t1, seq![(176 + ch) as u8, cc, msb]);
            let (p2, e2) = hi_res_step(routes, p1, t2, seq![(176 + ch) as u8, (cc + 32) as u8, lsb]);
            &&& e1 == CcStep::MsbStored(pending.contains_key((ch, cc)))
            &&& p2 == pending.remove((ch, cc))
            &&& pair_is_late(t2, t1) ==> e2 == CcStep::Value14(
                routes[route_index(routes, ch, cc)->0].name@,
                value_14bit(msb, lsb),
            )
            &&& !pair_is_late(t2, t1) ==> e2 == CcStep::PairTooClose
        }),
{
    let m1 = seq![(176 + ch) as u8, cc, msb];
    let m2 = seq![(176 + ch) as u8, (cc + 32) as u8, lsb];
    assert(is_cc_message(m1) && status_channel(m1[0]) == ch && m1[1] == cc && m1[2] == msb);
    assert(is_cc_message(m2) && status_channel(m2[0]) == ch && m2[1] == cc + 32 && m2[2] == lsb);
    let p1 = pending.insert((ch, cc), (t1, msb));
    assert(((cc + 32) as u8 - 32) as u8 == cc);
    assert(p1.remove((ch, cc)) =~= pending.remove((ch, cc)));
}


proof fn lemma_route_index_first(routes: Seq<CcRoute>, ch: u8, cc: u8)
    ensures
        route_index(routes, ch, cc) matches Some(i) ==> (0 <= i < routes.len() && route_matches(routes[i], ch, cc)
            && forall|j: int| 0 <= j < i ==> !route_matches(#[trigger] routes[j], ch, cc)),
        route_index(routes, ch, cc) is None ==> forall|j: int|
            0 <= j < routes.len() ==> !route_matches(#[trigger] routes[j], ch, cc),
    decreases routes.len(),
{
    if routes.len() > 0 {
        let init = routes.drop_last();
        lemma_route_index_first(init, ch, cc);
        assert forall|j: int| 0 <= j < init.len() implies init[j] == routes[j] by {}
    }
}

/// In plain mode a control change moves exactly the first control that
/// listens to its channel (the low nibble of the status byte) and its
/// controller, with the message's value; when no control listens to that
/// channel and controller, or the message is no control change, nothing
/// happens.
pub proof fn law_standard_routes_by_channel_and_cc(routes: Seq<CcRoute>, msg: Seq<u8>)
    ensures
        (msg.len() < 3 || msg[0] / 16 != 11) ==> standard_step(routes, msg) == CcStep::Ignored,
        msg.len() >= 3 && msg[0] / 16 == 11 && (forall|j: int|
            0 <= j < routes.len() ==> !((#[trigger] routes[j]).channel == msg[0] % 16 && routes[j].cc == msg[1]))
            ==> standard_step(routes, msg) == CcStep::Ignored,
        msg.len() >= 3 && msg[0] / 16 == 11 ==> forall|i: int|
            0 <= i < routes.len() && (#[trigger] routes[i]).channel == msg[0] % 16 && routes[i].cc == msg[1] && (
            forall|j: int| 0 <= j < i ==> !((#[trigger] routes[j]).channel == msg[0] % 16 && routes[j].cc == msg[1]))
                ==> standard_step(routes, msg) == CcStep::Value7(routes[i].name@, msg[2]),
        forall|n: Seq<char>, v: u8|
            #[trigger] standard_step(routes, msg) == CcStep::Value7(n, v) ==> exists|i: int|
                0 <= i < routes.len() && (#[trigger] routes[i]).name@ == n && routes[i].channel == msg[0] % 16
                    && routes[i].cc == msg[1] && v == msg[2],
{
    if msg.len() >= 3 && msg[0] / 16 == 11 {
        let ch = status_channel(msg[0]);
        assert(ch == msg[0] % 16);
        lemma_route_index_first(routes, ch, msg[1]);
        if let Some(i) = route_index(routes, ch, msg[1]) {
            assert forall|i2: int|
                0 <= i2 < routes.len() && (#[trigger] routes[i2]).channel == msg[0] % 16 && routes[i2].cc == msg[1]
                    && (forall|j: int| 0 <= j < i2 ==> !((#[trigger] routes[j]).channel == msg[0] % 16 && routes[j].cc
                    == msg[1])) implies standard_step(routes, msg) == CcStep::Value7(routes[i2].name@, msg[2]) by {
                if i < i2 {
                    assert(!((routes[i]).channel == msg[0] % 16 && routes[i].cc == msg[1]));
                } else if i2 < i {
                    assert(!route_matches(routes[i2], ch, msg[1]));
                }
            }
            assert(routes[i].name@ == routes[i].name@);
        } else {
            assert forall|j: int| 0 <= j < routes.len() implies !((#[trigger] routes[j]).channel == msg[0] % 16
                && routes[j].cc == msg[1]) by {
                assert(!route_matches(routes[j], ch, msg[1]));
            }
        }
    }
}
} // verus!
