//! The keepalive policy: ping an idle peer, close one whose pong never
//! arrives.

use vstd::prelude::*;

verus! {

/// What the keepalive tick decides.
#[derive(Debug, Copy, Clone, PartialEq, Eq, Structural)]
pub enum KeepaliveAction {
    /// The connection is closing; the keepalive task exits.
    Exit,
    /// The peer has been idle for the interval and no ping is
    /// outstanding: send a ping.
    SendPing,
    /// The outstanding ping has gone unanswered for twice the interval:
    /// close the connection for a policy violation.
    CloseTimeout,
    /// Nothing to do this tick.
    Idle,
}

/// The keepalive state of one connection: the idleness threshold in
/// milliseconds and, when a ping is outstanding, its send time.
pub struct Keepalive {
    /// The idleness threshold in milliseconds.
    pub interval_ms: u64,
    /// The send time of the outstanding ping, if one is outstanding.
    pub ping_sent: Option<u64>,
}

impl Keepalive {
    /// The idleness threshold in milliseconds.
    pub open spec fn interval_m(&self) -> u64 {
        self.interval_ms
    }

    /// The send time of the outstanding ping, if one is outstanding.
    pub open spec fn outstanding_m(&self) -> Option<u64> {
        self.ping_sent
    }

    /// What one tick at `now_ms` decides, given the `closing` flag and
    /// the time of the last read from the peer.
    pub open spec fn spec_step(self, closing: bool, last_seen_ms: u64, now_ms: u64) -> (
        Keepalive,
        KeepaliveAction,
    ) {
        if closing {
            (self, KeepaliveAction::Exit)
        } else if self.outstanding_m() is None && now_ms - last_seen_ms >= self.interval_m() {
            (Keepalive { ping_sent: Some(now_ms), ..self }, KeepaliveAction::SendPing)
        } else if self.outstanding_m() matches Some(sent) && now_ms - sent >= 2 * (
        self.interval_m() as int) {
            (self, KeepaliveAction::CloseTimeout)
        } else {
            (self, KeepaliveAction::Idle)
        }
    }

    /// Keepalive for a fresh connection: no ping outstanding.
    pub fn new(interval_secs: u64) -> (r: Self)
        requires
            interval_secs <= 1000000,
        ensures
            r.interval_m() == interval_secs * 1000,
            r.outstanding_m() is None,
    {
        Keepalive { interval_ms: interval_secs * 1000, ping_sent: None }
    }

    /// One tick of the keepalive task.
    pub fn step(&mut self, closing: bool, last_seen_ms: u64, now_ms: u64) -> (r: KeepaliveAction)
        requires
            now_ms >= last_seen_ms,
            old(self).outstanding_m() matches Some(sent) ==> now_ms >= sent,
            old(self).interval_m() <= 1000000000,
        ensures
            (*final(self), r) == old(self).spec_step(closing, last_seen_ms, now_ms),
    {
        if closing {
            return KeepaliveAction::Exit;
        }
        let idle = now_ms - last_seen_ms;
        match self.ping_sent {
            None => {
                if idle >= self.interval_ms {
                    self.ping_sent = Some(now_ms);
                    KeepaliveAction::SendPing
                } else {
                    KeepaliveAction::Idle
                }
            },
            Some(sent) => {
                if now_ms - sent >= 2 * self.interval_ms {
                    KeepaliveAction::CloseTimeout
                } else {
                    KeepaliveAction::Idle
                }
            },
        }
    }

    /// A matching pong arrived: the outstanding ping is answered.
    pub fn pong_received(&mut self)
        ensures
            final(self).outstanding_m() is None,
            final(self).interval_m() == old(self).interval_m(),
    {
        self.ping_sent = None;
    }
}

/// No more than one ping is outstanding at any time: a ping is sent
/// only by a tick that found none outstanding, that tick records it as
/// the only outstanding one, and while one is outstanding no tick sends
/// another.
pub proof fn lemma_single_outstanding_ping(
    k: Keepalive,
    closing: bool,
    last_seen_ms: u64,
    now_ms: u64,
)
    ensures
        k.spec_step(closing, last_seen_ms, now_ms).1 == KeepaliveAction::SendPing ==> (
        k.outstanding_m() is None && k.spec_step(closing, last_seen_ms, now_ms).0.outstanding_m()
            == Some(now_ms)),
        k.outstanding_m() is Some ==> k.spec_step(closing, last_seen_ms, now_ms).1
            != KeepaliveAction::SendPing && k.spec_step(
            closing,
            last_seen_ms,
            now_ms,
        ).0.outstanding_m() == k.outstanding_m(),
{
}

} // verus!
