//! Hole punching: small packets sent to the peer until one of its own comes
//! through.
use vstd::prelude::*;

use crate::net::{IpAddr, SocketAddr};
use crate::random::random_bytes;

verus! {

pub const PUNCH_BUFFER_SIZE: usize = 1600;

pub const PUNCH_READ_DEADLINE_MS: u64 = 100;

/// Every so many packets a line is logged.
pub const PUNCH_LOG_INTERVAL: u32 = 50;

/// Every so many packets the interval grows.
pub const PUNCH_INTERVAL_CHANGE: u32 = 5;

/// The intervals between packets, in milliseconds.
pub const PUNCH_INTERVALS_MS: [u64; 3] = [50, 100, 200];

/// The sizes of the packets.
pub const PUNCH_PAYLOAD_SIZES: [usize; 4] = [5, 50, 100, 200];

/// The packets of a round: random bytes, of each size. Nothing is said of the
/// bytes but their number.
pub fn punch_payloads() -> (r: Vec<Vec<u8>>)
    ensures
        r@.len() == 4,
        forall|i: int| 0 <= i < 4 ==> (#[trigger] r@[i])@.len() == PUNCH_PAYLOAD_SIZES[i],
{
    let mut r: Vec<Vec<u8>> = Vec::new();
    let mut i: usize = 0;
    while i < 4
        invariant
            i <= 4,
            r@.len() == i,
            forall|j: int| 0 <= j < i ==> (#[trigger] r@[j])@.len() == PUNCH_PAYLOAD_SIZES[j],
        decreases 4 - i,
    {
        r.push(random_bytes(PUNCH_PAYLOAD_SIZES[i]));
        i = i + 1;
    }
    r
}

/// What came of a hole punch.
#[derive(Clone, Copy, Debug, PartialEq, Eq, Structural)]
pub enum PunchOutcome {
    /// A packet of the peer came from this address.
    Observed(SocketAddr),
    /// The punch was given up before one came.
    Aborted,
    /// None came in time.
    TimedOut,
}

/// The outcome: what the punch reported, if it reported in time.
pub fn punch_outcome(reported: Option<Option<SocketAddr>>) -> (r: PunchOutcome)
    ensures
        r == match reported {
            Some(Some(addr)) => PunchOutcome::Observed(addr),
            Some(None) => PunchOutcome::Aborted,
            None => PunchOutcome::TimedOut,
        },
{
    match reported {
        Some(Some(addr)) => PunchOutcome::Observed(addr),
        Some(None) => PunchOutcome::Aborted,
        None => PunchOutcome::TimedOut,
    }
}

/// Whether a packet of `n` bytes from `from` is one of the peer: not empty,
/// and from its IP address, if that is known; the port may differ.
pub fn is_punch_packet(n: usize, from: IpAddr, peer_ip: Option<IpAddr>) -> (b: bool)
    ensures
        b == (n > 0 && (peer_ip is Some ==> from == peer_ip->0)),
{
    if n == 0 {
        return false;
    }
    match peer_ip {
        Some(ip) => from == ip,
        None => true,
    }
}

/// How far a hole punch has come.
#[derive(Clone, Copy, Debug, PartialEq, Eq, Structural)]
pub struct Puncher {
    /// Packets sent.
    pub attempt: u32,
    /// Index of the interval in use.
    pub interval: usize,
}

/// What to do on a tick.
#[derive(Clone, Copy, Debug)]
pub struct PunchStep {
    /// Index of the packet to send.
    pub payload: usize,
    /// Log the attempt, and the interval at which it was made.
    pub log: Option<(u32, u64)>,
    /// The new interval, in milliseconds, when it changes.
    pub interval_ms: Option<u64>,
}

impl Puncher {
    pub open spec fn wf(self) -> bool {
        self.interval < 3
    }

    pub fn new() -> (p: Puncher)
        ensures
            p.wf(),
            p == (Puncher { attempt: 0, interval: 0 }),
    {
        Puncher { attempt: 0, interval: 0 }
    }

    /// The packet sent on this tick leads on to the next interval.
    pub open spec fn grows(self) -> bool {
        (self.attempt + 1) % PUNCH_INTERVAL_CHANGE as int == 0 && self.interval < 2
    }

    /// The state after a tick.
    pub open spec fn next(self) -> Puncher {
        Puncher {
            attempt: (self.attempt + 1) as u32,
            interval: if self.grows() {
                (self.interval + 1) as usize
            } else {
                self.interval
            },
        }
    }

    /// Takes a tick: the packets take turns, and after every few of them the
    /// interval grows until it is the longest.
    pub fn tick(&mut self) -> (s: PunchStep)
        requires
            old(self).wf(),
            old(self).attempt < u32::MAX,
        ensures
            final(self).wf(),
            *final(self) == old(self).next(),
            s.payload == old(self).attempt % 4,
            s.log == if final(self).attempt % PUNCH_LOG_INTERVAL == 0 {
                Some((final(self).attempt, PUNCH_INTERVALS_MS[old(self).interval as int]))
            } else {
                None::<(u32, u64)>
            },
            s.interval_ms == if old(self).grows() {
                Some(PUNCH_INTERVALS_MS[final(self).interval as int])
            } else {
                None::<u64>
            },
    {
        let payload: usize = (self.attempt % 4) as usize;
        self.attempt = self.attempt + 1;
        let log = if self.attempt % PUNCH_LOG_INTERVAL == 0 {
            Some((self.attempt, PUNCH_INTERVALS_MS[self.interval]))
        } else {
            None
        };
        let mut interval_ms: Option<u64> = None;
        if self.attempt % PUNCH_INTERVAL_CHANGE == 0 && self.interval < 2 {
            self.interval = self.interval + 1;
            interval_ms = Some(PUNCH_INTERVALS_MS[self.interval]);
        }
        PunchStep { payload, log, interval_ms }
    }
}

/// The state after `n` ticks from the start.
pub open spec fn after_ticks(n: nat) -> Puncher
    decreases n,
{
    if n == 0 {
        Puncher { attempt: 0, interval: 0 }
    } else {
        after_ticks((n - 1) as nat).next()
    }
}

/// The first packets go out at the shortest interval, as many again at the
/// next one, and all others at the longest.
pub proof fn law_punch_slows_down(n: nat)
    requires
        n <= u32::MAX,
    ensures
        after_ticks(n).attempt == n,
        after_ticks(n).interval == if n < PUNCH_INTERVAL_CHANGE {
            0int
        } else if n < 2 * PUNCH_INTERVAL_CHANGE {
            1int
        } else {
            2int
        },
    decreases n,
{
    if n > 0 {
        law_punch_slows_down((n - 1) as nat);
    }
}

} // verus!
