//! Keepalive statistics: the outstanding ping nonce and a sliding
//! window over the last few round-trip times.

use vstd::prelude::*;

use vstd::slice::slice_index_get;

use crate::rng::random_nonce;

verus! {

/// How many round-trip times the sliding window holds.
pub const RTT_WINDOW: usize = 5;

/// How many bytes a ping nonce carries.
pub const NONCE_LEN: usize = 8;

/// Why a pong was not credited: its nonce does not match the
/// outstanding one (the expected nonce is carried along), or the reply
/// took longer than a 16-bit millisecond count can hold.
pub enum PongError {
    Nonce([u8; 8]),
    Late(u64),
}

/// Stores and averages the last few ping round-trip times, and tracks
/// the nonce and send time of the most recent ping.
pub struct PingStats {
    history: [Option<u16>; 5],
    idx: usize,
    last_nonce: [u8; 8],
    last_ping_ms: u64,
}

/// The arithmetic mean of the populated window slots, or `None` when
/// every slot is empty.
pub open spec fn spec_average(history: Seq<Option<u16>>) -> Option<u16> {
    let sum = spec_window_sum(history);
    let count = spec_window_count(history);
    if count == 0 {
        None
    } else {
        Some((sum / count) as u16)
    }
}

/// The sum of the populated slots.
pub open spec fn spec_window_sum(history: Seq<Option<u16>>) -> int
    decreases history.len(),
{
    if history.len() == 0 {
        0
    } else {
        (match history.last() {
            Some(v) => v as int,
            None => 0,
        }) + spec_window_sum(history.drop_last())
    }
}

/// The number of populated slots.
pub open spec fn spec_window_count(history: Seq<Option<u16>>) -> int
    decreases history.len(),
{
    if history.len() == 0 {
        0
    } else {
        (match history.last() {
            Some(_) => 1int,
            None => 0int,
        }) + spec_window_count(history.drop_last())
    }
}

proof fn lemma_window_bounds(history: Seq<Option<u16>>)
    ensures
        0 <= spec_window_count(history) <= history.len(),
        0 <= spec_window_sum(history) <= history.len() * 65535,
    decreases history.len(),
{
    if history.len() > 0 {
        lemma_window_bounds(history.drop_last());
        assert(history.drop_last().len() == history.len() - 1);
        assert((history.len() - 1) * 65535 + 65535 == history.len() * 65535) by (nonlinear_arith)
            requires
                history.len() >= 1,
        ;
    }
}

impl PingStats {
    /// The recorded round-trip times, oldest slots `None`.
    pub closed spec fn history_m(&self) -> Seq<Option<u16>> {
        self.history@
    }

    /// The slot the next round-trip time lands in.
    pub closed spec fn idx_m(&self) -> int {
        self.idx as int
    }

    /// The nonce of the most recent ping.
    pub closed spec fn nonce_m(&self) -> Seq<u8> {
        self.last_nonce@
    }

    /// When the most recent ping was sent, in milliseconds.
    pub closed spec fn last_ping_m(&self) -> u64 {
        self.last_ping_ms
    }

    /// Well-formed: the write index stays inside the window.
    pub open spec fn wf(&self) -> bool {
        0 <= self.idx_m() < RTT_WINDOW && self.history_m().len() == RTT_WINDOW
    }

    /// Fresh statistics: an empty window, a zero nonce.
    pub fn new() -> (r: Self)
        ensures
            r.wf(),
            r.history_m() == Seq::new(RTT_WINDOW as nat, |i: int| None::<u16>),
            r.idx_m() == 0,
            r.nonce_m() == Seq::new(NONCE_LEN as nat, |i: int| 0u8),
            r.last_ping_m() == 0,
    {
        let r = PingStats {
            history: [None, None, None, None, None],
            idx: 0,
            last_nonce: [0u8, 0u8, 0u8, 0u8, 0u8, 0u8, 0u8, 0u8],
            last_ping_ms: 0,
        };
        proof {
            assert(r.history_m() =~= Seq::new(RTT_WINDOW as nat, |i: int| None::<u16>));
            assert(r.nonce_m() =~= Seq::new(NONCE_LEN as nat, |i: int| 0u8));
        }
        r
    }

    /// Draws a fresh random nonce, records it with the send time, and
    /// returns it as the next ping's payload.
    pub fn new_nonce(&mut self, now_ms: u64) -> (r: [u8; 8])
        ensures
            final(self).nonce_m() == r@,
            final(self).last_ping_m() == now_ms,
            final(self).history_m() == old(self).history_m(),
            final(self).idx_m() == old(self).idx_m(),
    {
        let nonce = random_nonce();
        self.last_nonce = nonce;
        self.last_ping_ms = now_ms;
        nonce
    }

    /// Credits a pong observed at `now_ms`: a matching nonce whose
    /// round trip fits 16 bits is recorded and returned; a slower one is
    /// reported late; a mismatched nonce is reported with the expected
    /// one and changes nothing.
    pub fn on_pong(&mut self, nonce: &[u8], now_ms: u64) -> (r: Result<u16, PongError>)
        requires
            old(self).wf(),
        ensures
            final(self).wf(),
            final(self).nonce_m() == old(self).nonce_m(),
            final(self).last_ping_m() == old(self).last_ping_m(),
            ({
                let elapsed: int = if now_ms >= old(self).last_ping_m() {
                    now_ms - old(self).last_ping_m()
                } else {
                    0
                };
                if nonce@ != old(self).nonce_m() {
                    &&& r matches Err(PongError::Nonce(expected)) && expected@ == old(
                        self,
                    ).nonce_m()
                    &&& *final(self) == *old(self)
                } else if elapsed > 65535 {
                    &&& r matches Err(PongError::Late(ms)) && ms == elapsed
                    &&& *final(self) == *old(self)
                } else {
                    &&& r matches Ok(rtt) && rtt == elapsed
                    &&& final(self).history_m() == old(self).history_m().update(
                        old(self).idx_m(),
                        Some(elapsed as u16),
                    )
                    &&& final(self).idx_m() == (old(self).idx_m() + 1) % (RTT_WINDOW as int)
                }
            }),
    {
        let matches_nonce = nonce.len() == 8 && *slice_index_get(nonce, 0) == self.last_nonce[0]
            && *slice_index_get(nonce, 1) == self.last_nonce[1] && *slice_index_get(nonce, 2)
            == self.last_nonce[2] && *slice_index_get(nonce, 3) == self.last_nonce[3]
            && *slice_index_get(nonce, 4) == self.last_nonce[4] && *slice_index_get(nonce, 5)
            == self.last_nonce[5] && *slice_index_get(nonce, 6) == self.last_nonce[6]
            && *slice_index_get(nonce, 7) == self.last_nonce[7];
        proof {
            if matches_nonce {
                assert(nonce@ =~= self.last_nonce@);
            }
        }
        if !matches_nonce {
            return Err(PongError::Nonce(self.last_nonce));
        }
        let elapsed: u64 = if now_ms >= self.last_ping_ms {
            now_ms - self.last_ping_ms
        } else {
            0
        };
        if elapsed > 65535 {
            return Err(PongError::Late(elapsed));
        }
        let rtt = elapsed as u16;
        self.add(rtt);
        Ok(rtt)
    }

    /// Records one round-trip time in the next window slot.
    pub fn add(&mut self, rtt: u16)
        requires
            old(self).wf(),
        ensures
            final(self).wf(),
            final(self).history_m() == old(self).history_m().update(old(self).idx_m(), Some(rtt)),
            final(self).idx_m() == (old(self).idx_m() + 1) % (RTT_WINDOW as int),
            final(self).nonce_m() == old(self).nonce_m(),
            final(self).last_ping_m() == old(self).last_ping_m(),
    {
        self.history[self.idx] = Some(rtt);
        self.idx = (self.idx + 1) % RTT_WINDOW;
    }

    /// The mean of the recorded round-trip times, or `None` while the
    /// window is empty.
    pub fn average(&self) -> (r: Option<u16>)
        requires
            self.wf(),
        ensures
            r == spec_average(self.history_m()),
    {
        let mut sum: u32 = 0;
        let mut count: u32 = 0;
        let mut i: usize = 0;
        proof {
            lemma_window_bounds(self.history_m());
        }
        while i < 5
            invariant
                self.wf(),
                0 <= i <= 5,
                sum == spec_window_sum(self.history_m().take(i as int)),
                count == spec_window_count(self.history_m().take(i as int)),
                0 <= count <= i,
                sum <= i * 65535,
            decreases 5 - i,
        {
            proof {
                assert(self.history_m().take(i as int + 1).drop_last() =~= self.history_m().take(
                    i as int,
                ));
                assert(self.history_m().take(i as int + 1).last() == self.history_m()[i as int]);
                lemma_window_bounds(self.history_m().take(i as int + 1));
            }
            match self.history[i] {
                Some(v) => {
                    sum = sum + v as u32;
                    count = count + 1;
                },
                None => {},
            }
            i = i + 1;
        }
        proof {
            assert(self.history_m().take(5) =~= self.history_m());
        }
        if count == 0 {
            None
        } else {
            Some((sum / count) as u16)
        }
    }
}

} // verus!
