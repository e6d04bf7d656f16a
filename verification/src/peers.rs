use vstd::prelude::*;
use crate::clock::{get_cpu_count, timestamp_sec};

verus! {

/// The size of the buffer into which a listening socket receives.
pub const BUFF_MAX_SIZE: usize = 4096;

/// The size that is asked for the send and receive buffers of a socket.
pub const SOCKET_BUFFER_SIZE: usize = 17840000;

/// The address of a remote peer: the bits of its IP address, whether that is
/// an IPv6 address, and its port.
#[derive(Clone, Copy, PartialEq, Eq, Structural, Debug, Hash)]
pub struct PeerAddr {
    pub v6: bool,
    pub ip: u128,
    pub port: u16,
}

/// What the handler of a peer finds in the queue of the peer.
#[derive(Debug, PartialEq, Eq)]
pub enum Inbound {
    /// A datagram from the peer.
    Data(Vec<u8>),
    /// The peer was idle for too long and is closed.
    TimedOut,
}

/// What an item of a queue holds, as plain values.
pub enum InboundView {
    Data(Seq<u8>),
    TimedOut,
}

impl View for Inbound {
    type V = InboundView;

    open spec fn view(&self) -> InboundView {
        match *self {
            Inbound::Data(data) => InboundView::Data(data@),
            Inbound::TimedOut => InboundView::TimedOut,
        }
    }
}

/// The items of a queue, as plain values.
pub open spec fn queue_view(queue: Seq<Inbound>) -> Seq<InboundView> {
    Seq::new(queue.len(), |i: int| queue[i]@)
}

/// The session of one remote peer on one socket.
pub struct UdpPeer {
    socket_id: usize,
    addr: PeerAddr,
    queue: Vec<Inbound>,
    last_seen: i64,
    delivered: Ghost<Seq<InboundView>>,
    observed: Ghost<nat>,
}

/// What a peer holds, as plain values: besides the socket, the address and
/// the second at which it was last heard of, every item that was ever put
/// into its queue, in order, and the number of them that its handler took
/// out.
pub struct PeerView {
    pub socket_id: nat,
    pub addr: PeerAddr,
    pub delivered: Seq<InboundView>,
    pub observed: nat,
    pub last_seen: int,
}

impl PeerView {
    /// The items that wait in the queue.
    pub open spec fn pending(self) -> Seq<InboundView> {
        self.delivered.skip(self.observed as int)
    }

    /// The peer after one more item was put into its queue.
    pub open spec fn with_item(self, item: InboundView) -> PeerView {
        PeerView { delivered: self.delivered.push(item), ..self }
    }

    /// Whether the peer was idle for more than `timeout` seconds at the
    /// second `now`.
    pub open spec fn idle(self, now: int, timeout: int) -> bool {
        now - self.last_seen > timeout
    }

    /// The peer after a tick of the idle check: one that was idle for too
    /// long has the notice of it in its queue.
    pub open spec fn checked(self, now: int, timeout: int) -> PeerView {
        if self.idle(now, timeout) {
            self.with_item(InboundView::TimedOut)
        } else {
            self
        }
    }
}

impl View for UdpPeer {
    type V = PeerView;

    closed spec fn view(&self) -> PeerView {
        PeerView {
            socket_id: self.socket_id as nat,
            addr: self.addr,
            delivered: self.delivered@,
            observed: self.observed@,
            last_seen: self.last_seen as int,
        }
    }
}

impl UdpPeer {
    #[verifier::type_invariant]
    closed spec fn inv(self) -> bool {
        &&& self.observed@ <= self.delivered@.len()
        &&& queue_view(self.queue@) == self.delivered@.skip(self.observed@ as int)
    }

    /// A peer that was first heard of at the second `now`, with an empty
    /// queue.
    pub fn new(socket_id: usize, addr: PeerAddr, now: i64) -> (peer: UdpPeer)
        ensures
            peer@ == (PeerView {
                socket_id: socket_id as nat,
                addr,
                delivered: Seq::empty(),
                observed: 0,
                last_seen: now as int,
            }),
    {
        let queue: Vec<Inbound> = Vec::new();
        assert(queue_view(queue@) =~= Seq::<InboundView>::empty().skip(0));
        UdpPeer {
            socket_id,
            addr,
            queue,
            last_seen: now,
            delivered: Ghost(Seq::empty()),
            observed: Ghost(0),
        }
    }

    /// The address of the peer.
    pub fn get_addr(&self) -> (addr: PeerAddr)
        ensures
            addr == self@.addr,
    {
        self.addr
    }

    /// The socket on which the peer talks.
    pub fn socket_id(&self) -> (id: usize)
        ensures
            id == self@.socket_id,
    {
        self.socket_id
    }

    /// The second at which the peer was last heard of.
    pub fn get_last_recv_sec(&self) -> (sec: i64)
        ensures
            sec == self@.last_seen,
    {
        self.last_seen
    }

    fn push(self, item: Inbound) -> (peer: UdpPeer)
        ensures
            peer@ == self@.with_item(item@),
    {
        proof {
            use_type_invariant(&self);
        }
        let UdpPeer { socket_id, addr, queue, last_seen, delivered, observed } = self;
        let mut queue = queue;
        let ghost q0 = queue_view(queue@);
        queue.push(item);
        assert(queue_view(queue@) =~= q0.push(item@));
        assert(delivered@.push(item@).skip(observed@ as int) =~= q0.push(item@));
        UdpPeer {
            socket_id,
            addr,
            queue,
            last_seen,
            delivered: Ghost(delivered@.push(item@)),
            observed,
        }
    }

    /// Puts a datagram at the end of the queue of the peer.
    pub fn push_data(self, data: Vec<u8>) -> (peer: UdpPeer)
        ensures
            peer@ == self@.with_item(InboundView::Data(data@)),
    {
        self.push(Inbound::Data(data))
    }

    /// Puts a datagram at the end of the queue of the peer, which was heard
    /// of at the second `now`.
    pub fn push_data_and_update_instant(self, data: Vec<u8>, now: i64) -> (peer: UdpPeer)
        ensures
            peer@ == (PeerView {
                last_seen: now as int,
                ..self@.with_item(InboundView::Data(data@))
            }),
    {
        proof {
            use_type_invariant(&self);
        }
        let UdpPeer { socket_id, addr, queue, last_seen, delivered, observed } = self;
        let seen = UdpPeer { socket_id, addr, queue, last_seen: now, delivered, observed };
        seen.push(Inbound::Data(data))
    }

    /// Closes the peer: the notice that it timed out goes to the end of its
    /// queue, where its handler finds it behind what was there before.
    pub fn close(self) -> (peer: UdpPeer)
        ensures
            peer@ == self@.with_item(InboundView::TimedOut),
    {
        self.push(Inbound::TimedOut)
    }

    /// Takes the item at the front of the queue, if there is one: the items
    /// come out in the order in which they were put in.
    pub fn recv(self) -> (res: (UdpPeer, Option<Inbound>))
        ensures
            match res.1 {
                Some(item) => self@.observed < self@.delivered.len() && item@
                    == self@.delivered[self@.observed as int] && res.0@ == (PeerView {
                    observed: self@.observed + 1,
                    ..self@
                }),
                None => self@.observed == self@.delivered.len() && res.0@ == self@,
            },
    {
        proof {
            use_type_invariant(&self);
        }
        let UdpPeer { socket_id, addr, queue, last_seen, delivered, observed } = self;
        if queue.len() == 0 {
            assert(queue_view(queue@).len() == 0);
            assert(delivered@.skip(observed@ as int).len() == delivered@.len() - observed@);
            let peer = UdpPeer { socket_id, addr, queue, last_seen, delivered, observed };
            return (peer, None);
        }
        let mut queue = queue;
        let ghost q0 = queue_view(queue@);
        let item = queue.remove(0);
        assert(q0[0] == item@);
        assert(queue_view(queue@) =~= q0.skip(1));
        assert(delivered@.skip(observed@ as int + 1) =~= q0.skip(1));
        assert(q0[0] == delivered@[observed@ as int]);
        let peer = UdpPeer {
            socket_id,
            addr,
            queue,
            last_seen,
            delivered,
            observed: Ghost((observed@ + 1) as nat),
        };
        (peer, Some(item))
    }
}

/// Whether a peer is idle at the second `now`: it was last heard of more
/// than `timeout` seconds ago.
pub fn is_idle(last_seen: i64, now: i64, timeout: u64) -> (idle: bool)
    ensures
        idle == (now - last_seen > timeout),
{
    (now as i128) - (last_seen as i128) > (timeout as i128)
}

/// Every tick of the idle check that falls into the two seconds after the
/// timeout of a peer ran out finds the peer idle, and so does every later
/// one. The check ticks once a second, so a peer that is not heard of is
/// closed within the timeout and two seconds.
pub proof fn lemma_idle_within_two_seconds(peer: PeerView, timeout: int, tick: int)
    requires
        peer.last_seen + timeout < tick,
    ensures
        peer.idle(tick, timeout),
        peer.checked(tick, timeout).delivered == peer.delivered.push(InboundView::TimedOut),
        exists|second: int|
            peer.last_seen + timeout < second <= peer.last_seen + timeout + 2 && peer.idle(
                second,
                timeout,
            ),
{
    assert(peer.idle(peer.last_seen + timeout + 1, timeout));
}

/// What a handler takes out of the queue of a peer is what was put in, in
/// the same order: after `count` items were taken out, those are the first
/// `count` that were ever put in, and what waits is the rest.
pub proof fn lemma_queue_order(peer: PeerView, count: int)
    requires
        0 <= count <= peer.observed <= peer.delivered.len(),
    ensures
        peer.delivered == peer.delivered.take(peer.observed as int) + peer.pending(),
        peer.delivered.take(peer.observed as int).take(count) == peer.delivered.take(count),
{
    assert(peer.delivered =~= peer.delivered.take(peer.observed as int) + peer.pending());
    assert(peer.delivered.take(peer.observed as int).take(count) =~= peer.delivered.take(count));
}

/// The number of sockets on which to listen: one for each processor where
/// the platform lets several sockets share an address and a port, one
/// socket where it does not.
pub fn listen_count(cpus: usize, reuse_port: bool) -> (count: usize)
    ensures
        count == if reuse_port {
            cpus
        } else {
            1
        },
{
    if reuse_port {
        cpus
    } else {
        1
    }
}

/// The number of sockets on which to listen on this machine.
pub fn detect_listen_count(reuse_port: bool) -> (count: usize)
    ensures
        count >= 1,
        !reuse_port ==> count == 1,
{
    let cpus = get_cpu_count();
    listen_count(cpus, reuse_port)
}

} // verus!
