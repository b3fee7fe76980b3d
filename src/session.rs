use vstd::prelude::*;

use crate::framing::FrameReader;
use crate::ids::UserId;
use crate::protocol::{Ping, Pong};

verus! {

/// Seconds after the last ping before the next one is due.
pub const PING_INTERVAL: u64 = 15;

/// Seconds of silence tolerated beyond `PING_INTERVAL` before eviction.
pub const MAX_PING_TIMEOUT: u64 = 10;

/// The keepalive state of a session: the codes of the last ping sent and the
/// last pong received (counters, in seconds), and whether the session is to
/// be dropped.
pub struct Liveness {
    pub last_ping: int,
    pub last_pong: int,
    pub disconnected: bool,
}

/// The peer has been silent for longer than the allowance.
pub open spec fn timed_out(l: Liveness, now: int) -> bool {
    now - l.last_pong > PING_INTERVAL + MAX_PING_TIMEOUT
}

/// A new ping goes out once the interval has passed and the previous ping
/// has been answered: one ping at most is in flight.
pub open spec fn ping_due(l: Liveness, now: int) -> bool {
    now - l.last_ping > PING_INTERVAL && l.last_pong >= l.last_ping
}

/// One keepalive check at time `now`.
pub open spec fn tick(l: Liveness, now: int) -> Liveness {
    if l.disconnected {
        l
    } else if timed_out(l, now) {
        Liveness { disconnected: true, ..l }
    } else if ping_due(l, now) {
        Liveness { last_ping: now, ..l }
    } else {
        l
    }
}

/// Whether the check at `now` sends a ping.
pub open spec fn sends_ping(l: Liveness, now: int) -> bool {
    !l.disconnected && !timed_out(l, now) && ping_due(l, now)
}

/// A pong arrived.
pub open spec fn receive_pong(l: Liveness, code: int) -> Liveness {
    Liveness { last_pong: code, ..l }
}

/// A session that was just accepted at time `now`.
pub open spec fn fresh(now: int) -> Liveness {
    Liveness { last_ping: now, last_pong: now, disconnected: false }
}

/// Longest delay, in seconds, within which a responsive peer answers a ping.
pub open spec fn answer_delay() -> int {
    5
}

/// `answers.len()` seconds of a session with a responsive peer, from time
/// `now`: each second the server checks the session, then the peer answers
/// the ping in flight, whenever `answers` says so and at the latest
/// `answer_delay()` seconds after it was sent.
pub open spec fn responsive_run(l: Liveness, now: int, answers: Seq<bool>) -> Liveness
    decreases answers.len(),
{
    if answers.len() == 0 {
        l
    } else {
        let t = tick(l, now);
        let owed = t.last_pong < t.last_ping;
        let next = if owed && (answers[0] || now >= t.last_ping + answer_delay()) {
            receive_pong(t, t.last_ping)
        } else {
            t
        };
        responsive_run(next, now + 1, answers.drop_first())
    }
}

/// A session whose peer sends no pong for `PING_INTERVAL + MAX_PING_TIMEOUT
/// + 1` seconds after a ping is evicted by the check at that time.
pub proof fn lemma_silent_peer_evicted(l: Liveness, ping_sent: int, now: int)
    requires
        l.last_pong <= ping_sent,
        now >= ping_sent + PING_INTERVAL + MAX_PING_TIMEOUT + 1,
    ensures
        tick(l, now).disconnected,
{
}

spec fn on_time(l: Liveness, now: int) -> bool {
    &&& !l.disconnected
    &&& l.last_pong <= l.last_ping <= now
    &&& l.last_pong == l.last_ping ==> now - l.last_ping <= PING_INTERVAL + 1
    &&& l.last_pong < l.last_ping ==> now - l.last_ping <= answer_delay() && l.last_ping
        - l.last_pong <= PING_INTERVAL + 1
}

proof fn lemma_on_time_run(l: Liveness, now: int, answers: Seq<bool>)
    requires
        on_time(l, now),
    ensures
        !responsive_run(l, now, answers).disconnected,
    decreases answers.len(),
{
    if answers.len() > 0 {
        let t = tick(l, now);
        let owed = t.last_pong < t.last_ping;
        let next = if owed && (answers[0] || now >= t.last_ping + answer_delay()) {
            receive_pong(t, t.last_ping)
        } else {
            t
        };
        assert(on_time(next, now + 1));
        lemma_on_time_run(next, now + 1, answers.drop_first());
    }
}

/// A session whose peer answers every ping within `answer_delay()` seconds
/// is never evicted, however long it runs.
pub proof fn lemma_responsive_peer_kept(created: int, answers: Seq<bool>)
    ensures
        !responsive_run(fresh(created), created, answers).disconnected,
{
    lemma_on_time_run(fresh(created), created, answers);
}

/// Server-side bookkeeping of one connection. The socket itself stays with
/// the caller, registered under the token equal to `id.0`.
pub struct Session {
    pub id: UserId,
    /// Bytes of the connection's stream not yet formed into a frame.
    pub reader: FrameReader,
    /// Set by a layer above once the peer has authenticated.
    pub authorized: bool,
    pub last_ping: Ping,
    pub last_pong: Pong,
    /// The session is to be removed before the next poll.
    pub disconnected: bool,
}

impl Session {
    pub open spec fn liveness(&self) -> Liveness {
        Liveness {
            last_ping: self.last_ping.code as int,
            last_pong: self.last_pong.code as int,
            disconnected: self.disconnected,
        }
    }

    /// A session for a connection accepted at time `now`: not authorized,
    /// nothing buffered, and its clock started as if a ping had just been
    /// answered.
    pub fn new(id: UserId, now: u64) -> (r: Session)
        ensures
            r.id == id,
            !r.authorized,
            r.reader@ == Seq::<u8>::empty(),
            r.reader.wf(),
            r.liveness() == fresh(now as int),
    {
        Session {
            id,
            reader: FrameReader::new(),
            authorized: false,
            last_ping: Ping { code: now },
            last_pong: Pong { code: now },
            disconnected: false,
        }
    }

    /// The keepalive check at time `now`: flags the session as disconnected
    /// if the peer timed out, else returns the ping to send if one is due.
    pub fn check_keepalive(&mut self, now: u64) -> (r: Option<Ping>)
        ensures
            final(self).liveness() == tick(old(self).liveness(), now as int),
            r == (if sends_ping(old(self).liveness(), now as int) {
                Some(Ping { code: now })
            } else {
                None
            }),
            final(self).id == old(self).id,
            final(self).authorized == old(self).authorized,
            final(self).reader == old(self).reader,
    {
        if self.disconnected {
            return None;
        }
        let pong = self.last_pong.code;
        if now >= pong && now - pong > PING_INTERVAL + MAX_PING_TIMEOUT {
            self.disconnected = true;
            return None;
        }
        let ping = self.last_ping.code;
        if now >= ping && now - ping > PING_INTERVAL && pong >= ping {
            self.last_ping = Ping { code: now };
            return Some(Ping { code: now });
        }
        None
    }

    /// Records a pong from the peer.
    pub fn receive_pong(&mut self, pong: Pong)
        ensures
            final(self).liveness() == receive_pong(old(self).liveness(), pong.code as int),
            final(self).id == old(self).id,
            final(self).authorized == old(self).authorized,
            final(self).reader == old(self).reader,
    {
        self.last_pong = pong;
    }
}

} // verus!
