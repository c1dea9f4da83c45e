use vstd::prelude::*;

use crate::message::Message;
use crate::types::{ConnID, Header};

verus! {

/// Whether a message with header `h` goes to connection `conn`: broadcasts
/// go to everyone, addressed messages to their addressee alone.
pub open spec fn spec_delivers(h: Header, conn: ConnID) -> bool {
    match h.to {
        None => true,
        Some(to) => to == conn,
    }
}

/// Whether the bridge of connection `conn` forwards a message with header `h`.
pub fn delivers(h: &Header, conn: ConnID) -> (r: bool)
    ensures
        r == spec_delivers(*h, conn),
{
    match h.to {
        None => true,
        Some(to) => to == conn,
    }
}

/// A message addressed to one connection reaches that connection's bridge
/// and no other.
pub proof fn lemma_addressed_reaches_only_addressee(h: Header, x: ConnID, conn: ConnID)
    requires
        h.to == Some(x),
    ensures
        spec_delivers(h, conn) <==> conn == x,
{
}

/// The messages of a cache snapshot, in order.
pub open spec fn snapshot_messages(cache: Seq<(Header, Message)>) -> Seq<Message> {
    cache.map_values(|hm: (Header, Message)| hm.1)
}

/// The messages of `live`, in order, that go to connection `conn`.
pub open spec fn delivered_to(conn: ConnID, live: Seq<(Header, Message)>) -> Seq<Message>
    decreases live.len(),
{
    if live.len() == 0 {
        Seq::empty()
    } else {
        let before = delivered_to(conn, live.drop_last());
        if spec_delivers(live.last().0, conn) {
            before.push(live.last().1)
        } else {
            before
        }
    }
}

/// The outbound side of one client's bridge: the cache replay first, then
/// the live messages meant for the client.
pub struct Bridge {
    conn: ConnID,
    replay: Ghost<Seq<Message>>,
    live: Ghost<Seq<(Header, Message)>>,
    sent: Ghost<Seq<Message>>,
}

impl Bridge {
    /// The connection the bridge serves.
    pub closed spec fn spec_conn(&self) -> ConnID {
        self.conn
    }

    /// The cache replay the client received on attaching.
    pub closed spec fn replayed(&self) -> Seq<Message> {
        self.replay@
    }

    /// Every live message the bridge was handed, in order.
    pub closed spec fn received(&self) -> Seq<(Header, Message)> {
        self.live@
    }

    /// Everything forwarded to the client so far, in order.
    pub closed spec fn sent(&self) -> Seq<Message> {
        self.sent@
    }

    pub closed spec fn wf(&self) -> bool {
        self.sent@ == self.replay@ + delivered_to(self.conn, self.live@)
    }

    /// Attach connection `conn` with the cache snapshot taken at attach time;
    /// returns the bridge and the replay to write to the socket before
    /// anything else.
    pub fn attach(conn: ConnID, cache: Vec<(Header, Message)>) -> (r: (Bridge, Vec<Message>))
        ensures
            r.0.wf(),
            r.0.spec_conn() == conn,
            r.1@ == snapshot_messages(cache@),
            r.0.replayed() == r.1@,
            r.0.sent() == r.1@,
            r.0.received() == Seq::<(Header, Message)>::empty(),
    {
        let ghost all = cache@;
        let mut rest = cache;
        let mut out: Vec<Message> = Vec::new();
        while rest.len() > 0
            invariant
                out@.len() + rest@.len() == all.len(),
                rest@ == all.subrange(out@.len() as int, all.len() as int),
                out@ == snapshot_messages(all.subrange(0, out@.len() as int)),
            decreases rest@.len(),
        {
            let ghost before = out@;
            let (_, m) = rest.remove(0);
            out.push(m);
            assert(snapshot_messages(all.subrange(0, out@.len() as int)) =~= snapshot_messages(
                all.subrange(0, before.len() as int),
            ).push(all[before.len() as int].1));
        }
        assert(all.subrange(0, out@.len() as int) =~= all);
        let bridge = Bridge { conn, replay: Ghost(out@), live: Ghost(Seq::empty()), sent: Ghost(out@) };
        assert(bridge.sent@ =~= bridge.replay@ + delivered_to(conn, bridge.live@));
        (bridge, out)
    }

    /// A live message from the room: forwarded when it is meant for this
    /// connection, after everything forwarded before.
    pub fn forward(&mut self, h: &Header, m: Message) -> (r: Option<Message>)
        requires
            old(self).wf(),
        ensures
            final(self).wf(),
            final(self).spec_conn() == old(self).spec_conn(),
            final(self).replayed() == old(self).replayed(),
            final(self).received() == old(self).received().push((*h, m)),
            spec_delivers(*h, old(self).spec_conn()) ==> r == Some(m) && final(self).sent()
                == old(self).sent().push(m),
            !spec_delivers(*h, old(self).spec_conn()) ==> r is None && final(self).sent()
                == old(self).sent(),
    {
        let ghost live = self.live@.push((*h, m));
        self.live = Ghost(live);
        assert(live.drop_last() =~= old(self).live@);
        if delivers(h, self.conn) {
            self.sent = Ghost(self.sent@.push(m));
            assert(self.sent@ =~= self.replay@ + delivered_to(self.conn, self.live@));
            Some(m)
        } else {
            None
        }
    }
}

/// What a bridge has forwarded is the cache replay, then exactly the live
/// messages meant for its connection, in the order it received them.
pub proof fn lemma_bridge_output(b: Bridge)
    requires
        b.wf(),
    ensures
        b.sent() == b.replayed() + delivered_to(b.spec_conn(), b.received()),
{
}

/// Whatever a bridge has forwarded begins with the cache replay, in FIFO
/// order: no live message reaches the client before the replay.
pub proof fn lemma_replay_precedes_live(b: Bridge)
    requires
        b.wf(),
    ensures
        b.sent().len() >= b.replayed().len(),
        forall|i: int| 0 <= i < b.replayed().len() ==> #[trigger] b.sent()[i] == b.replayed()[i],
{
    assert forall|i: int| 0 <= i < b.replayed().len() implies #[trigger] b.sent()[i]
        == b.replayed()[i] by {}
}

} // verus!
