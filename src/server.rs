use vstd::prelude::*;

use crate::codec::{decode, decode_message};
use crate::error::NetworkError;
use crate::framing::split_frames;
use crate::ids::UserId;
use crate::protocol::{Message, Ping, Protocol, ReceivePacket, SendPacket};
use crate::session::{fresh, sends_ping, tick, Liveness, Session};

verus! {

/// A change in the set of connections, for the layers above.
#[derive(Clone, Copy, Debug, PartialEq, Eq, Structural)]
pub enum ConnectionEvent {
    Established(UserId),
    Lost(UserId, NetworkError),
}

/// The ids of a list of sessions, in order.
pub open spec fn ids(s: Seq<Session>) -> Seq<UserId> {
    s.map_values(|x: Session| x.id)
}

/// Where the session with `id` stands in `s`, if anywhere.
pub open spec fn index_of(s: Seq<Session>, id: UserId) -> Option<int> {
    if exists|i: int| 0 <= i < s.len() && s[i].id == id {
        Some(choose|i: int| 0 <= i < s.len() && s[i].id == id)
    } else {
        None
    }
}

/// The sessions not flagged for disconnection.
pub open spec fn live(s: Seq<Session>) -> Seq<Session> {
    s.filter(staying())
}

pub open spec fn staying() -> spec_fn(Session) -> bool {
    |x: Session| !x.disconnected
}

pub open spec fn leaving() -> spec_fn(Session) -> bool {
    |x: Session| x.disconnected
}

/// The ids of the sessions flagged for disconnection.
pub open spec fn flagged(s: Seq<Session>) -> Seq<UserId> {
    ids(s.filter(leaving()))
}

/// The events that report `ids` lost for `reason`.
pub open spec fn lost_events(ids: Seq<UserId>, reason: NetworkError) -> Seq<ConnectionEvent> {
    ids.map_values(|id: UserId| ConnectionEvent::Lost(id, reason))
}

/// A layer above admitted the peer of `client`.
#[derive(Clone, Copy, Debug, PartialEq, Eq, Structural)]
pub struct AuthorizationEvent {
    pub client: UserId,
}

impl AuthorizationEvent {
    pub fn new(client: UserId) -> (r: AuthorizationEvent)
        ensures
            r.client == client,
    {
        AuthorizationEvent { client }
    }
}

/// What one read from a connection's socket gave.
#[derive(Debug)]
pub enum ReadEvent {
    /// Bytes arrived.
    Data(Vec<u8>),
    /// Nothing more to read for now.
    WouldBlock,
    /// The read was interrupted before anything happened; it can be retried.
    Interrupted,
    /// The stream ended, or the socket failed.
    Closed,
}

/// What the reactor does next with a readable connection.
#[derive(Clone, Copy, Debug, PartialEq, Eq, Structural)]
pub enum ReadAction {
    /// Read again.
    KeepReading,
    /// Stop reading until the socket is readable again.
    StopReading,
    /// The session is gone: deregister the socket and drop it.
    Close,
}

/// The messages of a list of payloads, in order, up to the first payload
/// that is not a message; and whether there was such a payload.
pub open spec fn decode_frames(fs: Seq<Seq<u8>>) -> (Seq<Message>, bool)
    decreases fs.len(),
{
    if fs.len() == 0 {
        (Seq::empty(), false)
    } else {
        match decode_message(fs[0]) {
            Some(m) => {
                let (ms, bad) = decode_frames(fs.drop_first());
                (seq![m] + ms, bad)
            },
            None => (Seq::empty(), true),
        }
    }
}

/// The code of the last pong among `ms`, or `code` if there is none.
pub open spec fn last_pong_code(ms: Seq<Message>, code: u64) -> u64
    decreases ms.len(),
{
    if ms.len() == 0 {
        code
    } else {
        match ms.last() {
            Message::Pong(p) => p.code,
            _ => last_pong_code(ms.drop_last(), code),
        }
    }
}

/// Messages tagged with their origin.
pub open spec fn tagged(ms: Seq<Message>, id: UserId) -> Seq<(Message, UserId)> {
    ms.map_values(|m: Message| (m, id))
}

/// The sessions that the keepalive check at `now` sends a ping.
pub open spec fn pinging(now: int) -> spec_fn(Session) -> bool {
    |x: Session| sends_ping(x.liveness(), now)
}

/// `after` is `before` with every session checked at `now`.
pub open spec fn all_checked(before: Seq<Session>, after: Seq<Session>, now: int) -> bool {
    &&& after.len() == before.len()
    &&& forall|i: int|
        0 <= i < before.len() ==> {
            &&& (#[trigger] after[i]).liveness() == tick(before[i].liveness(), now)
            &&& after[i].id == before[i].id
            &&& after[i].authorized == before[i].authorized
            &&& after[i].reader == before[i].reader
        }
}

/// `out` sends a ping with code `now` to each of `to`, in order.
pub open spec fn pings_to(out: Seq<SendPacket>, to: Seq<UserId>, now: u64) -> bool {
    &&& out.len() == to.len()
    &&& forall|i: int|
        0 <= i < out.len() ==> (#[trigger] out[i]).1 == to[i] && out[i].0@ == Message::Ping(
            Ping { code: now },
        )
}

/// Each id is greater than the one before it.
pub open spec fn increasing(s: Seq<UserId>) -> bool {
    forall|i: int, j: int| 0 <= i < j < s.len() ==> s[i].0 < s[j].0
}

/// The messages of a queue with their origins.
pub open spec fn envelopes(q: Seq<ReceivePacket>) -> Seq<(Message, UserId)> {
    q.map_values(|p: ReceivePacket| (p.0@, p.1))
}

/// The server's connection table and the queues that it fills for the
/// game loop. The sockets stay with the caller's poller, each registered
/// under the token equal to its session's id.
pub struct TransportSystem {
    /// Live sessions, in the order they were accepted.
    pub sessions: Vec<Session>,
    /// Connections accepted since start; the last id handed out.
    pub total_connections: u64,
    /// Every id handed out since start, in order.
    pub issued: Ghost<Seq<UserId>>,
    /// Decoded messages with their origin, oldest first.
    pub inbound: Vec<ReceivePacket>,
    /// Connection events, oldest first.
    pub events: Vec<ConnectionEvent>,
}

impl TransportSystem {
    pub open spec fn wf(&self) -> bool {
        &&& self.issued@.len() == self.total_connections
        &&& forall|i: int|
            0 <= i < self.issued@.len() ==> (#[trigger] self.issued@[i]).0 == i + 1
        &&& increasing(ids(self.sessions@))
        &&& forall|i: int|
            0 <= i < self.sessions@.len() ==> 1 <= (#[trigger] self.sessions@[i]).id.0
                <= self.total_connections && self.sessions@[i].reader.wf()
    }

    pub fn new() -> (r: TransportSystem)
        ensures
            r.wf(),
            r.sessions@.len() == 0,
            r.total_connections == 0,
            r.issued@.len() == 0,
            r.inbound@.len() == 0,
            r.events@.len() == 0,
    {
        TransportSystem {
            sessions: Vec::new(),
            total_connections: 0,
            issued: Ghost(Seq::empty()),
            inbound: Vec::new(),
            events: Vec::new(),
        }
    }

    /// Registers a connection accepted at time `now` under the next id.
    /// Fails only when the ids are exhausted.
    pub fn accept(&mut self, now: u64) -> (r: Option<UserId>)
        requires
            old(self).wf(),
        ensures
            final(self).wf(),
            final(self).inbound == old(self).inbound,
            old(self).total_connections == u64::MAX ==> r.is_none() && *final(self) == *old(self),
            old(self).total_connections < u64::MAX ==> {
                let id = UserId((old(self).total_connections + 1) as u64);
                &&& r == Some(id)
                &&& final(self).total_connections == id.0
                &&& final(self).issued@ == old(self).issued@.push(id)
                &&& final(self).sessions@.len() == old(self).sessions@.len() + 1
                &&& final(self).sessions@.drop_last() == old(self).sessions@
                &&& final(self).sessions@.last().id == id
                &&& !final(self).sessions@.last().authorized
                &&& final(self).sessions@.last().reader@ == Seq::<u8>::empty()
                &&& final(self).sessions@.last().liveness() == fresh(now as int)
                &&& final(self).events@ == old(self).events@.push(ConnectionEvent::Established(id))
            },
    {
        if self.total_connections == u64::MAX {
            return None;
        }
        self.total_connections = self.total_connections + 1;
        let id = UserId(self.total_connections);
        self.sessions.push(Session::new(id, now));
        self.issued = Ghost(self.issued@.push(id));
        self.events.push(ConnectionEvent::Established(id));
        proof {
            let olds = old(self).sessions@;
            let news = self.sessions@;
            assert(news.drop_last() =~= olds);
            assert forall|i: int, j: int| 0 <= i < j < news.len() implies ids(news)[i].0 < ids(
                news,
            )[j].0 by {
                assert(ids(news)[i] == news[i].id);
                assert(ids(news)[j] == news[j].id);
                if j < olds.len() {
                    assert(ids(olds)[i] == olds[i].id);
                    assert(ids(olds)[j] == olds[j].id);
                } else {
                    assert(news[i] == olds[i]);
                }
            }
            assert forall|i: int| 0 <= i < news.len() implies 1 <= (#[trigger] news[i]).id.0
                <= self.total_connections && news[i].reader.wf() by {
                if i < olds.len() {
                    assert(news[i] == olds[i]);
                }
            }
        }
        Some(id)
    }

    /// Removes the sessions flagged for disconnection, which the keepalive
    /// check flags, and reports each one lost. Returns their ids, in table
    /// order, so that the caller deregisters their sockets at once.
    pub fn remove_disconnected(&mut self) -> (r: Vec<UserId>)
        requires
            old(self).wf(),
        ensures
            final(self).wf(),
            final(self).sessions@ == live(old(self).sessions@),
            r@ == flagged(old(self).sessions@),
            final(self).events@ == old(self).events@ + lost_events(
                r@,
                NetworkError::KeepaliveTimeout,
            ),
            final(self).total_connections == old(self).total_connections,
            final(self).issued == old(self).issued,
            final(self).inbound == old(self).inbound,
    {
        let ghost orig = self.sessions@;
        let ghost events0 = self.events@;
        let mut removed: Vec<UserId> = Vec::new();
        let mut i: usize = 0;
        let ghost mut j: int = 0;
        proof {
            reveal(Seq::filter);
            assert(orig.take(0) =~= Seq::<Session>::empty());
            assert(orig.skip(0) =~= orig);
        }
        while i < self.sessions.len()
            invariant
                self.wf(),
                self.total_connections == old(self).total_connections,
                self.issued == old(self).issued,
                self.inbound == old(self).inbound,
                0 <= j <= orig.len(),
                i == live(orig.take(j)).len(),
                self.sessions@ == live(orig.take(j)) + orig.skip(j),
                removed@ == flagged(orig.take(j)),
                self.events@ == events0 + lost_events(removed@, NetworkError::KeepaliveTimeout),
            decreases self.sessions@.len() - i,
        {
            let ghost before = self.sessions@;
            proof {
                assert(before.len() == i + orig.skip(j).len());
                assert(j < orig.len());
                assert(orig.take(j + 1).drop_last() =~= orig.take(j));
                assert(before[i as int] == orig[j]);
                assert(orig.take(j + 1).last() == orig[j]);
                reveal(Seq::filter);
                let f = orig.take(j + 1).filter(staying());
                let g = orig.take(j + 1).filter(leaving());
                assert(f == (if orig[j].disconnected {
                    live(orig.take(j))
                } else {
                    live(orig.take(j)).push(orig[j])
                }));
                assert(g == (if orig[j].disconnected {
                    orig.take(j).filter(leaving()).push(orig[j])
                } else {
                    orig.take(j).filter(leaving())
                }));
            }
            if self.sessions[i].disconnected {
                let gone = self.sessions.remove(i);
                let ghost removed0 = removed@;
                removed.push(gone.id);
                self.events.push(ConnectionEvent::Lost(gone.id, NetworkError::KeepaliveTimeout));
                proof {
                    let after = self.sessions@;
                    assert(after =~= live(orig.take(j + 1)) + orig.skip(j + 1));
                    assert(removed@ =~= flagged(orig.take(j + 1)));
                    assert(lost_events(removed@, NetworkError::KeepaliveTimeout) =~= lost_events(
                        removed0,
                        NetworkError::KeepaliveTimeout,
                    ).push(ConnectionEvent::Lost(gone.id, NetworkError::KeepaliveTimeout)));
                    assert(self.events@ =~= events0 + lost_events(
                        removed@,
                        NetworkError::KeepaliveTimeout,
                    ));
                    assert forall|a: int, b: int| 0 <= a < b < after.len() implies ids(after)[a].0
                        < ids(after)[b].0 by {
                        assert(ids(after)[a] == after[a].id);
                        assert(ids(after)[b] == after[b].id);
                        let a0 = if a < i { a } else { a + 1 };
                        let b0 = if b < i { b } else { b + 1 };
                        assert(ids(before)[a0] == before[a0].id);
                        assert(ids(before)[b0] == before[b0].id);
                    }
                    assert forall|k: int| 0 <= k < after.len() implies 1 <= (
                    #[trigger] after[k]).id.0 <= self.total_connections && after[k].reader.wf() by {
                        let k0 = if k < i { k } else { k + 1 };
                        assert(after[k] == before[k0]);
                    }
                }
            } else {
                i = i + 1;
                proof {
                    assert(self.sessions@ =~= live(orig.take(j + 1)) + orig.skip(j + 1));
                    assert(removed@ =~= flagged(orig.take(j + 1)));
                }
            }
            proof {
                j = j + 1;
            }
        }
        proof {
            assert(j == orig.len());
            assert(orig.take(j) =~= orig);
            assert(self.sessions@ =~= live(orig));
        }
        removed
    }

    /// The keepalive check of every session at time `now`: flags those whose
    /// peer timed out, and returns the pings that are due, in table order.
    pub fn check_connections(&mut self, now: u64) -> (r: Vec<SendPacket>)
        requires
            old(self).wf(),
        ensures
            final(self).wf(),
            all_checked(old(self).sessions@, final(self).sessions@, now as int),
            pings_to(r@, ids(old(self).sessions@.filter(pinging(now as int))), now),
            final(self).total_connections == old(self).total_connections,
            final(self).issued == old(self).issued,
            final(self).inbound == old(self).inbound,
            final(self).events == old(self).events,
    {
        let ghost orig = self.sessions@;
        let mut out: Vec<SendPacket> = Vec::new();
        let mut i: usize = 0;
        proof {
            reveal(Seq::filter);
            assert(orig.take(0) =~= Seq::<Session>::empty());
        }
        while i < self.sessions.len()
            invariant
                self.wf(),
                self.total_connections == old(self).total_connections,
                self.issued == old(self).issued,
                self.inbound == old(self).inbound,
                self.events == old(self).events,
                self.sessions@.len() == orig.len(),
                i <= orig.len(),
                all_checked(orig.take(i as int), self.sessions@.take(i as int), now as int),
                self.sessions@.skip(i as int) == orig.skip(i as int),
                pings_to(out@, ids(orig.take(i as int).filter(pinging(now as int))), now),
            decreases orig.len() - i,
        {
            let ghost before = self.sessions@;
            let mut s = self.sessions.remove(i);
            let ping = s.check_keepalive(now);
            let id = s.id;
            self.sessions.insert(i, s);
            let ghost out0 = out@;
            match ping {
                Some(p) => {
                    out.push(SendPacket(Protocol::Ping(p), id));
                },
                None => {},
            }
            proof {
                reveal(Seq::filter);
                let after = self.sessions@;
                assert(before.skip(i as int)[0] == before[i as int]);
                assert(orig.skip(i as int)[0] == orig[i as int]);
                assert(before[i as int] == orig[i as int]);
                assert(orig.take(i + 1).drop_last() =~= orig.take(i as int));
                assert forall|k: int| 0 <= k < orig.len() - (i + 1) implies #[trigger] after.skip(i + 1)[k]
                    == orig.skip(i + 1)[k] by {
                    assert(after[i + 1 + k] == before[i + 1 + k]);
                    assert(before.skip(i as int)[k + 1] == orig.skip(i as int)[k + 1]);
                }
                assert(after.skip(i + 1) =~= orig.skip(i + 1));
                assert(after.take(i + 1).drop_last() =~= before.take(i as int));
                let f = orig.take(i + 1).filter(pinging(now as int));
                let f0 = orig.take(i as int).filter(pinging(now as int));
                assert(f == (if sends_ping(orig[i as int].liveness(), now as int) {
                    f0.push(orig[i as int])
                } else {
                    f0
                }));
                if sends_ping(orig[i as int].liveness(), now as int) {
                    assert(ids(f) =~= ids(f0).push(orig[i as int].id));
                }
                assert forall|k: int| 0 <= k < after.len() implies 1 <= (#[trigger] after[k]).id.0
                    <= self.total_connections && after[k].reader.wf() by {
                    assert(k == i || after[k] == before[k]);
                }
                assert(ids(after) =~= ids(before));
            }
            i = i + 1;
        }
        proof {
            assert(orig.take(i as int) =~= orig);
            assert(self.sessions@.take(i as int) =~= self.sessions@);
        }
        out
    }

    /// Handles one read from the socket of connection `id`. Bytes go through
    /// the session's frame reader; each complete payload is decoded and
    /// queued with its origin, and a pong also updates the session. A payload
    /// that is not a message, or the end of the stream, ends the session.
    /// Messages already queued, from this connection or any other, stay
    /// queued in their order.
    pub fn on_read(&mut self, id: UserId, event: ReadEvent) -> (r: ReadAction)
        requires
            old(self).wf(),
        ensures
            final(self).wf(),
            final(self).total_connections == old(self).total_connections,
            final(self).issued == old(self).issued,
            final(self).inbound@.take(old(self).inbound@.len() as int) == old(self).inbound@,
            match index_of(old(self).sessions@, id) {
                None => r == ReadAction::StopReading && *final(self) == *old(self),
                Some(i) => match event {
                    ReadEvent::WouldBlock => r == ReadAction::StopReading && *final(self) == *old(
                        self,
                    ),
                    ReadEvent::Interrupted => r == ReadAction::KeepReading && *final(self)
                        == *old(self),
                    ReadEvent::Closed => {
                        &&& r == ReadAction::Close
                        &&& final(self).sessions@ == old(self).sessions@.remove(i)
                        &&& final(self).inbound == old(self).inbound
                        &&& final(self).events@ == old(self).events@.push(
                            ConnectionEvent::Lost(id, NetworkError::ConnectionClosed),
                        )
                    },
                    ReadEvent::Data(bytes) => {
                        let before = old(self).sessions@[i];
                        let (frames, rest) = split_frames(before.reader@ + bytes@);
                        let (ms, bad) = decode_frames(frames);
                        &&& envelopes(final(self).inbound@) == envelopes(old(self).inbound@)
                            + tagged(ms, id)
                        &&& bad ==> {
                            &&& r == ReadAction::Close
                            &&& final(self).sessions@ == old(self).sessions@.remove(i)
                            &&& final(self).events@ == old(self).events@.push(
                                ConnectionEvent::Lost(id, NetworkError::MalformedPayload),
                            )
                        }
                        &&& !bad ==> {
                            let after = final(self).sessions@[i];
                            &&& r == ReadAction::KeepReading
                            &&& final(self).sessions@.len() == old(self).sessions@.len()
                            &&& forall|k: int|
                                0 <= k < old(self).sessions@.len() && k != i
                                    ==> final(self).sessions@[k] == old(self).sessions@[k]
                            &&& after.id == id
                            &&& after.authorized == before.authorized
                            &&& after.reader@ == rest
                            &&& after.liveness() == (Liveness {
                                last_pong: last_pong_code(ms, before.last_pong.code) as int,
                                ..before.liveness()
                            })
                            &&& final(self).events == old(self).events
                        }
                    },
                },
            },
    {
        let i = match self.find(id) {
            Some(i) => i,
            None => return ReadAction::StopReading,
        };
        let bytes = match event {
            ReadEvent::WouldBlock => return ReadAction::StopReading,
            ReadEvent::Interrupted => return ReadAction::KeepReading,
            ReadEvent::Closed => {
                self.drop_session(i, NetworkError::ConnectionClosed);
                return ReadAction::Close;
            },
            ReadEvent::Data(bytes) => bytes,
        };
        let ghost sessions0 = self.sessions@;
        let ghost inbound0 = self.inbound@;
        let mut s = self.sessions.remove(i);
        let ghost s0 = s;
        let frames = s.reader.push_bytes(bytes.as_slice());
        let ghost fs = split_frames(s0.reader@ + bytes@).0;
        let mut failed = false;
        let mut k: usize = 0;
        let ghost mut done: Seq<Message> = Seq::empty();
        proof {
            assert(fs.skip(0) =~= fs);
            assert(self.inbound@.take(inbound0.len() as int) =~= inbound0);
            assert(done + decode_frames(fs).0 =~= decode_frames(fs).0);
            assert(tagged(done, id) =~= Seq::<(Message, UserId)>::empty());
            assert(envelopes(inbound0) + tagged(done, id) =~= envelopes(inbound0));
        }
        while k < frames.len() && !failed
            invariant
                fs == crate::framing::payloads(frames@),
                k <= frames@.len(),
                s.id == s0.id,
                s.authorized == s0.authorized,
                s.reader@ == split_frames(s0.reader@ + bytes@).1,
                s.reader.wf(),
                s.liveness() == (Liveness {
                    last_pong: last_pong_code(done, s0.last_pong.code) as int,
                    ..s0.liveness()
                }),
                i < sessions0.len(),
                self.inbound@.len() >= inbound0.len(),
                self.inbound@.take(inbound0.len() as int) == inbound0,
                envelopes(self.inbound@) == envelopes(inbound0) + tagged(done, id),
                self.sessions@ == sessions0.remove(i as int),
                self.events == old(self).events,
                self.total_connections == old(self).total_connections,
                self.issued == old(self).issued,
                failed ==> decode_frames(fs) == (done, true),
                !failed ==> decode_frames(fs) == (done + decode_frames(fs.skip(k as int)).0,
                decode_frames(fs.skip(k as int)).1),
            decreases frames@.len() - k,
        {
            let ghost tail = fs.skip(k as int);
            proof {
                assert(tail[0] == frames@[k as int]@);
                assert(tail.drop_first() =~= fs.skip(k + 1));
            }
            match decode(frames[k].as_slice()) {
                Ok(m) => {
                    let ghost inbound1 = self.inbound@;
                    if let Protocol::Pong(p) = &m {
                        s.receive_pong(*p);
                    }
                    proof {
                        assert(done.push(m@).drop_last() =~= done);
                        let rest = decode_frames(fs.skip(k + 1));
                        assert(done + (seq![m@] + rest.0) =~= done.push(m@) + rest.0);
                    }
                    self.inbound.push(ReceivePacket(m, id));
                    proof {
                        assert forall|j: int| 0 <= j < inbound0.len() implies self.inbound@[j]
                            == inbound0[j] by {
                            assert(inbound1.take(inbound0.len() as int)[j] == inbound1[j]);
                        }
                        assert(self.inbound@.take(inbound0.len() as int) =~= inbound0);
                        assert(tagged(done.push(m@), id) =~= tagged(done, id).push((m@, id)));
                        assert(envelopes(self.inbound@) =~= envelopes(inbound1).push((m@, id)));
                        done = done.push(m@);
                    }
                },
                Err(_) => {
                    failed = true;
                    proof {
                        assert(done + Seq::<Message>::empty() =~= done);
                    }
                },
            }
            k = k + 1;
        }
        proof {
            if !failed {
                assert(fs.skip(k as int) =~= Seq::<Seq<u8>>::empty());
                assert(done + Seq::<Message>::empty() =~= done);
            }
            lemma_remove_keeps_order(sessions0, i as int);
        }
        if failed {
            self.events.push(ConnectionEvent::Lost(id, NetworkError::MalformedPayload));
            return ReadAction::Close;
        }
        self.sessions.insert(i, s);
        proof {
            let after = self.sessions@;
            assert forall|k: int| 0 <= k < sessions0.len() && k != i implies after[k]
                == sessions0[k] by {}
            assert(ids(after) =~= ids(sessions0));
            assert forall|k: int| 0 <= k < after.len() implies 1 <= (#[trigger] after[k]).id.0
                <= self.total_connections && after[k].reader.wf() by {
                assert(k == i || after[k] == sessions0[k]);
            }
        }
        ReadAction::KeepReading
    }

    /// Hands the queued messages to the game loop, oldest first, and empties
    /// the queue.
    pub fn take_inbound(&mut self) -> (r: Vec<ReceivePacket>)
        ensures
            r@ == old(self).inbound@,
            final(self).inbound@.len() == 0,
            final(self).sessions == old(self).sessions,
            final(self).total_connections == old(self).total_connections,
            final(self).issued == old(self).issued,
            final(self).events == old(self).events,
    {
        let mut out: Vec<ReceivePacket> = Vec::new();
        std::mem::swap(&mut out, &mut self.inbound);
        out
    }

    /// Hands the connection events to the layers above, oldest first, and
    /// empties their queue.
    pub fn take_events(&mut self) -> (r: Vec<ConnectionEvent>)
        ensures
            r@ == old(self).events@,
            final(self).events@.len() == 0,
            final(self).sessions == old(self).sessions,
            final(self).total_connections == old(self).total_connections,
            final(self).issued == old(self).issued,
            final(self).inbound == old(self).inbound,
    {
        let mut out: Vec<ConnectionEvent> = Vec::new();
        std::mem::swap(&mut out, &mut self.events);
        out
    }

    /// Marks the session of `id` authorized, once a layer above has accepted
    /// its peer. Returns whether there is such a session.
    pub fn authorize(&mut self, id: UserId) -> (r: bool)
        requires
            old(self).wf(),
        ensures
            final(self).wf(),
            r == index_of(old(self).sessions@, id).is_some(),
            final(self).total_connections == old(self).total_connections,
            final(self).issued == old(self).issued,
            final(self).inbound == old(self).inbound,
            final(self).events == old(self).events,
            final(self).sessions@.len() == old(self).sessions@.len(),
            forall|k: int|
                0 <= k < old(self).sessions@.len() ==> {
                    let (a, b) = (old(self).sessions@[k], #[trigger] final(self).sessions@[k]);
                    &&& b.id == a.id
                    &&& b.reader == a.reader
                    &&& b.liveness() == a.liveness()
                    &&& b.authorized == (a.authorized || a.id == id)
                },
    {
        let i = match self.find(id) {
            Some(i) => i,
            None => {
                proof {
                    assert forall|k: int| 0 <= k < self.sessions@.len() implies self.sessions@[k].id
                        != id by {
                        if self.sessions@[k].id == id {
                            assert(exists|j: int|
                                0 <= j < self.sessions@.len() && self.sessions@[j].id == id);
                        }
                    }
                }
                return false;
            },
        };
        let ghost before = self.sessions@;
        let mut s = self.sessions.remove(i);
        s.authorized = true;
        self.sessions.insert(i, s);
        proof {
            let after = self.sessions@;
            assert(ids(after) =~= ids(before));
            assert forall|k: int| 0 <= k < after.len() implies 1 <= (#[trigger] after[k]).id.0
                <= self.total_connections && after[k].reader.wf() by {
                assert(k == i || after[k] == before[k]);
            }
            assert forall|k: int| 0 <= k < before.len() && k != i implies before[k].id != id by {
                assert(ids(before)[k] == before[k].id);
                assert(ids(before)[i as int] == before[i as int].id);
                if k < i {
                    assert(ids(before)[k].0 < ids(before)[i as int].0);
                } else {
                    assert(ids(before)[i as int].0 < ids(before)[k].0);
                }
            }
        }
        true
    }

    /// Removes the session at `i` and reports it lost for `reason`.
    fn drop_session(&mut self, i: usize, reason: NetworkError)
        requires
            old(self).wf(),
            i < old(self).sessions@.len(),
        ensures
            final(self).wf(),
            final(self).sessions@ == old(self).sessions@.remove(i as int),
            final(self).events@ == old(self).events@.push(
                ConnectionEvent::Lost(old(self).sessions@[i as int].id, reason),
            ),
            final(self).total_connections == old(self).total_connections,
            final(self).issued == old(self).issued,
            final(self).inbound == old(self).inbound,
    {
        proof {
            lemma_remove_keeps_order(self.sessions@, i as int);
        }
        let gone = self.sessions.remove(i);
        self.events.push(ConnectionEvent::Lost(gone.id, reason));
    }

    /// Where the session with `id` stands in the table.
    pub fn find(&self, id: UserId) -> (r: Option<usize>)
        requires
            self.wf(),
        ensures
            r matches Some(i) ==> index_of(self.sessions@, id) == Some(i as int) && i
                < self.sessions@.len(),
            r is None ==> index_of(self.sessions@, id) is None,
    {
        let mut i: usize = 0;
        while i < self.sessions.len()
            invariant
                self.wf(),
                i <= self.sessions@.len(),
                forall|k: int| 0 <= k < i ==> (#[trigger] self.sessions@[k]).id != id,
            decreases self.sessions@.len() - i,
        {
            if self.sessions[i].id == id {
                proof {
                    let j = choose|j: int|
                        0 <= j < self.sessions@.len() && self.sessions@[j].id == id;
                    let s = ids(self.sessions@);
                    assert(s[j] == self.sessions@[j].id);
                    assert(s[i as int] == self.sessions@[i as int].id);
                    if j < i {
                        assert(s[j].0 < s[i as int].0);
                    } else if j > i {
                        assert(s[i as int].0 < s[j].0);
                    }
                }
                return Some(i);
            }
            i = i + 1;
        }
        None
    }
}

proof fn lemma_remove_keeps_order(s: Seq<Session>, i: int)
    requires
        0 <= i < s.len(),
        increasing(ids(s)),
    ensures
        increasing(ids(s.remove(i))),
        forall|k: int|
            0 <= k < s.remove(i).len() ==> #[trigger] s.remove(i)[k] == s[if k < i {
                k
            } else {
                k + 1
            }],
{
    let after = s.remove(i);
    assert forall|a: int, b: int| 0 <= a < b < after.len() implies ids(after)[a].0 < ids(
        after,
    )[b].0 by {
        assert(ids(after)[a] == after[a].id);
        assert(ids(after)[b] == after[b].id);
        let a0 = if a < i { a } else { a + 1 };
        let b0 = if b < i { b } else { b + 1 };
        assert(ids(s)[a0] == s[a0].id);
        assert(ids(s)[b0] == s[b0].id);
    }
}

/// Ids are never reused: every id this server has handed out is greater
/// than all those handed out before it, so no two are equal.
pub proof fn lemma_ids_unique(sys: TransportSystem)
    requires
        sys.wf(),
    ensures
        increasing(sys.issued@),
        increasing(ids(sys.sessions@)),
{
}

} // verus!
