use vstd::prelude::*;
use crate::clock::timestamp_sec;
use crate::peers::{is_idle, listen_count, Inbound, InboundView, PeerAddr, PeerView, UdpPeer};

verus! {

/// The number of the first peer of `peers`, from the number `from` on, that
/// has the address `addr`.
pub open spec fn position_from(peers: Seq<PeerView>, addr: PeerAddr, from: int) -> Option<int>
    decreases peers.len() - from,
{
    if from < 0 || from >= peers.len() {
        None
    } else if peers[from].addr == addr {
        Some(from)
    } else {
        position_from(peers, addr, from + 1)
    }
}

/// The number of the peer of `peers` that has the address `addr`.
pub open spec fn position(peers: Seq<PeerView>, addr: PeerAddr) -> Option<int> {
    position_from(peers, addr, 0)
}

/// What is found is a peer with the address, and no peer before it has it.
pub proof fn lemma_position(peers: Seq<PeerView>, addr: PeerAddr, from: int)
    requires
        0 <= from,
    ensures
        match position_from(peers, addr, from) {
            Some(i) => from <= i < peers.len() && peers[i].addr == addr && forall|k: int|
                from <= k < i ==> (#[trigger] peers[k]).addr != addr,
            None => forall|k: int| from <= k < peers.len() ==> (#[trigger] peers[k]).addr != addr,
        },
    decreases peers.len() - from,
{
    if from < peers.len() && peers[from].addr != addr {
        lemma_position(peers, addr, from + 1);
    }
}

/// The peers of one listening socket.
pub struct UdpContext {
    id: usize,
    peers: Vec<UdpPeer>,
}

/// What a context holds, as plain values: the number of its socket, and its
/// peers in the order in which they were first heard of.
pub struct ContextView {
    pub id: nat,
    pub peers: Seq<PeerView>,
}

/// The peers of a list, as plain values.
pub open spec fn peers_view(peers: Seq<UdpPeer>) -> Seq<PeerView> {
    Seq::new(peers.len(), |i: int| peers[i]@)
}

/// Whether no two peers of a list have the same address, and all are on the
/// socket `id`.
pub open spec fn peers_distinct(peers: Seq<PeerView>, id: nat) -> bool {
    &&& forall|i: int| 0 <= i < peers.len() ==> (#[trigger] peers[i]).socket_id == id
    &&& forall|i: int, j: int|
        0 <= i < j < peers.len() ==> (#[trigger] peers[i]).addr != (#[trigger] peers[j]).addr
}

/// The number of peers of a list that were last heard of more than
/// `timeout` seconds before the second `now`.
pub open spec fn idle_count(peers: Seq<PeerView>, now: int, timeout: int) -> nat
    decreases peers.len(),
{
    if peers.len() == 0 {
        0
    } else {
        idle_count(peers.drop_last(), now, timeout) + if peers.last().idle(now, timeout) {
            1nat
        } else {
            0nat
        }
    }
}

impl ContextView {
    /// The context after a datagram from `addr` came in at the second `now`.
    /// A peer that is there gets the datagram into its queue, and with
    /// `track` the second as the one at which it was last heard of. For an
    /// address that is new, a peer is made that was first heard of at `now`
    /// and has the datagram in its queue.
    pub open spec fn delivered(self, addr: PeerAddr, data: Seq<u8>, now: int, track: bool) -> ContextView {
        match position(self.peers, addr) {
            Some(i) => ContextView {
                peers: self.peers.update(
                    i,
                    PeerView {
                        last_seen: if track {
                            now
                        } else {
                            self.peers[i].last_seen
                        },
                        ..self.peers[i].with_item(InboundView::Data(data))
                    },
                ),
                ..self
            },
            None => ContextView {
                peers: self.peers.push(
                    PeerView {
                        socket_id: self.id,
                        addr,
                        delivered: seq![InboundView::Data(data)],
                        observed: 0,
                        last_seen: now,
                    },
                ),
                ..self
            },
        }
    }

    /// The context after a tick of the idle check at the second `now`: every
    /// peer that was last heard of more than `timeout` seconds ago has the
    /// notice of it in its queue.
    pub open spec fn checked(self, now: int, timeout: int) -> ContextView {
        ContextView {
            peers: Seq::new(self.peers.len(), |i: int| self.peers[i].checked(now, timeout)),
            ..self
        }
    }

    /// The context without the peer that has the address `addr`.
    pub open spec fn removed(self, addr: PeerAddr) -> ContextView {
        match position(self.peers, addr) {
            Some(i) => ContextView { peers: self.peers.remove(i), ..self },
            None => self,
        }
    }

    /// The context after the handler of the peer with the address `addr`
    /// took one item out of the queue.
    pub open spec fn taken(self, addr: PeerAddr) -> ContextView {
        match position(self.peers, addr) {
            Some(i) => if self.peers[i].observed < self.peers[i].delivered.len() {
                ContextView {
                    peers: self.peers.update(
                        i,
                        PeerView { observed: self.peers[i].observed + 1, ..self.peers[i] },
                    ),
                    ..self
                }
            } else {
                self
            },
            None => self,
        }
    }

    /// The item that the handler of the peer with the address `addr` takes
    /// out of the queue next: of what was put in, the first that was not
    /// taken out yet.
    pub open spec fn next_item(self, addr: PeerAddr) -> Option<InboundView> {
        match position(self.peers, addr) {
            Some(i) => if self.peers[i].observed < self.peers[i].delivered.len() {
                Some(self.peers[i].delivered[self.peers[i].observed as int])
            } else {
                None
            },
            None => None,
        }
    }
}

impl View for UdpContext {
    type V = ContextView;

    closed spec fn view(&self) -> ContextView {
        ContextView { id: self.id as nat, peers: peers_view(self.peers@) }
    }
}

fn find(peers: &Vec<UdpPeer>, addr: PeerAddr) -> (res: Option<usize>)
    ensures
        match res {
            Some(i) => position(peers_view(peers@), addr) == Some(i as int) && i < peers@.len(),
            None => position(peers_view(peers@), addr) is None,
        },
{
    let mut i: usize = 0;
    while i < peers.len()
        invariant
            i <= peers@.len(),
            position(peers_view(peers@), addr) == position_from(
                peers_view(peers@),
                addr,
                i as int,
            ),
        decreases peers@.len() - i,
    {
        assert(peers_view(peers@)[i as int] == peers@[i as int]@);
        let found = peers[i].get_addr();
        if found.v6 == addr.v6 && found.ip == addr.ip && found.port == addr.port {
            return Some(i);
        }
        i = i + 1;
    }
    None
}

fn copy_of(data: &[u8]) -> (copy: Vec<u8>)
    ensures
        copy@ == data@,
{
    let mut copy: Vec<u8> = Vec::new();
    let mut i: usize = 0;
    while i < data.len()
        invariant
            i <= data@.len(),
            copy@ == data@.take(i as int),
        decreases data@.len() - i,
    {
        copy.push(data[i]);
        assert(copy@ =~= data@.take(i + 1));
        i = i + 1;
    }
    assert(data@.take(i as int) =~= data@);
    copy
}

impl UdpContext {
    #[verifier::type_invariant]
    closed spec fn inv(self) -> bool {
        peers_distinct(peers_view(self.peers@), self.id as nat)
    }

    /// The context of the socket `id`, without peers.
    pub fn new(id: usize) -> (context: UdpContext)
        ensures
            context@ == (ContextView { id: id as nat, peers: Seq::empty() }),
    {
        let peers: Vec<UdpPeer> = Vec::new();
        assert(peers_view(peers@) =~= Seq::empty());
        UdpContext { id, peers }
    }

    /// The number of the socket.
    pub fn id(&self) -> (id: usize)
        ensures
            id == self@.id,
    {
        self.id
    }

    /// The number of peers.
    pub fn len(&self) -> (len: usize)
        ensures
            len == self@.peers.len(),
    {
        self.peers.len()
    }

    /// Whether there is a peer with the address `addr`.
    pub fn contains(&self, addr: PeerAddr) -> (res: bool)
        ensures
            res == position(self@.peers, addr) is Some,
    {
        find(&self.peers, addr).is_some()
    }

    /// Takes a datagram that came in from `addr` at the second `now`. The
    /// result says whether the peer is new, and so whether a handler is to be
    /// started for it.
    pub fn on_datagram_at(&mut self, addr: PeerAddr, data: &[u8], now: i64, track: bool) -> (created:
        bool)
        ensures
            final(self)@ == old(self)@.delivered(addr, data@, now as int, track),
            created == position(old(self)@.peers, addr) is None,
    {
        proof {
            use_type_invariant(&*self);
        }
        let id = self.id;
        let mut peers: Vec<UdpPeer> = Vec::new();
        assert(peers_view(peers@) =~= Seq::empty());
        std::mem::swap(&mut self.peers, &mut peers);
        let ghost before = peers_view(peers@);
        proof {
            lemma_position(before, addr, 0);
        }
        let created = match find(&peers, addr) {
            Some(i) => {
                let peer = peers.remove(i);
                assert(peer@ == before[i as int]);
                let peer = if track {
                    peer.push_data_and_update_instant(copy_of(data), now)
                } else {
                    peer.push_data(copy_of(data))
                };
                peers.insert(i, peer);
                assert(peers_view(peers@) =~= before.update(i as int, peer@));
                false
            },
            None => {
                let peer = UdpPeer::new(id, addr, now);
                let peer = peer.push_data(copy_of(data));
                assert(peer@.delivered =~= seq![InboundView::Data(data@)]);
                peers.push(peer);
                assert(peers_view(peers@) =~= before.push(peer@));
                true
            },
        };
        assert(peers_distinct(peers_view(peers@), id as nat));
        self.peers = peers;
        created
    }

    /// Takes a datagram that came in from `addr` just now, by the system
    /// clock.
    pub fn on_datagram(&mut self, addr: PeerAddr, data: &[u8], track: bool) -> (created: bool)
        ensures
            exists|now: int|
                now >= 0 && final(self)@ == #[trigger] old(self)@.delivered(
                    addr,
                    data@,
                    now,
                    track,
                ),
            created == position(old(self)@.peers, addr) is None,
    {
        let now = timestamp_sec();
        self.on_datagram_at(addr, data, now, track)
    }

    /// Takes the next item out of the queue of the peer with the address
    /// `addr`, for its handler. Nothing comes where the queue is empty or no
    /// such peer is there.
    pub fn recv(&mut self, addr: PeerAddr) -> (item: Option<Inbound>)
        ensures
            match item {
                Some(taken) => old(self)@.next_item(addr) == Some(taken@),
                None => old(self)@.next_item(addr) is None,
            },
            final(self)@ == old(self)@.taken(addr),
    {
        proof {
            use_type_invariant(&*self);
        }
        let id = self.id;
        let mut peers: Vec<UdpPeer> = Vec::new();
        assert(peers_view(peers@) =~= Seq::empty());
        std::mem::swap(&mut self.peers, &mut peers);
        let ghost before = peers_view(peers@);
        let item = match find(&peers, addr) {
            Some(i) => {
                let peer = peers.remove(i);
                assert(peer@ == before[i as int]);
                let (peer, item) = peer.recv();
                peers.insert(i, peer);
                assert(peers_view(peers@) =~= before.update(i as int, peer@));
                if item.is_none() {
                    assert(peers_view(peers@) =~= before);
                }
                item
            },
            None => {
                None
            },
        };
        assert(peers_distinct(peers_view(peers@), id as nat));
        self.peers = peers;
        item
    }

    /// One tick of the idle check at the second `now`: every peer that was
    /// last heard of more than `timeout` seconds ago is closed. The result
    /// is the number of peers that were closed.
    pub fn check_idle_at(&mut self, now: i64, timeout: u64) -> (closed: usize)
        ensures
            final(self)@ == old(self)@.checked(now as int, timeout as int),
            closed == idle_count(old(self)@.peers, now as int, timeout as int),
    {
        proof {
            use_type_invariant(&*self);
        }
        let id = self.id;
        let mut peers: Vec<UdpPeer> = Vec::new();
        assert(peers_view(peers@) =~= Seq::empty());
        std::mem::swap(&mut self.peers, &mut peers);
        let ghost before = peers_view(peers@);
        let mut closed: usize = 0;
        let mut i: usize = 0;
        assert(before.take(0) =~= Seq::empty());
        while i < peers.len()
            invariant
                i <= peers@.len(),
                closed <= i,
                closed == idle_count(before.take(i as int), now as int, timeout as int),
                peers@.len() == before.len(),
                forall|k: int|
                    0 <= k < i ==> (#[trigger] peers_view(peers@)[k]) == before[k].checked(
                        now as int,
                        timeout as int,
                    ),
                forall|k: int| i <= k < peers@.len() ==> (#[trigger] peers_view(peers@)[k]) == before[k],
            decreases peers@.len() - i,
        {
            let ghost current = peers_view(peers@);
            assert(current[i as int] == before[i as int]);
            proof {
                assert(before.take(i + 1).drop_last() =~= before.take(i as int));
                assert(before.take(i + 1).last() == before[i as int]);
            }
            if is_idle(peers[i].get_last_recv_sec(), now, timeout) {
                let peer = peers.remove(i);
                let peer = peer.close();
                peers.insert(i, peer);
                assert(peers_view(peers@) =~= current.update(i as int, peer@));
                closed = closed + 1;
            }
            i = i + 1;
        }
        assert(before.take(i as int) =~= before);
        assert(peers_view(peers@) =~= (ContextView { id: id as nat, peers: before }).checked(
            now as int,
            timeout as int,
        ).peers);
        assert(peers_distinct(peers_view(peers@), id as nat));
        self.peers = peers;
        closed
    }

    /// One tick of the idle check just now, by the system clock. The result
    /// is the number of peers that were closed.
    pub fn check_idle(&mut self, timeout: u64) -> (closed: usize)
        ensures
            exists|now: int|
                now >= 0 && final(self)@ == #[trigger] old(self)@.checked(now, timeout as int)
                    && closed == idle_count(old(self)@.peers, now, timeout as int),
    {
        let now = timestamp_sec();
        self.check_idle_at(now, timeout)
    }

    /// Takes the peer with the address `addr` away, when its handler is
    /// done. The result says whether there was one.
    pub fn remove(&mut self, addr: PeerAddr) -> (removed: bool)
        ensures
            final(self)@ == old(self)@.removed(addr),
            removed == position(old(self)@.peers, addr) is Some,
    {
        proof {
            use_type_invariant(&*self);
        }
        let id = self.id;
        let mut peers: Vec<UdpPeer> = Vec::new();
        assert(peers_view(peers@) =~= Seq::empty());
        std::mem::swap(&mut self.peers, &mut peers);
        let ghost before = peers_view(peers@);
        let removed = match find(&peers, addr) {
            Some(i) => {
                let _ = peers.remove(i);
                assert(peers_view(peers@) =~= before.remove(i as int));
                true
            },
            None => false,
        };
        assert(peers_distinct(peers_view(peers@), id as nat));
        self.peers = peers;
        removed
    }
}

/// The plan of a UDP server: the number of sockets on which it listens, and
/// the seconds after which an idle peer is closed, if idle peers are closed
/// at all.
#[derive(Clone, Copy, Debug, PartialEq, Eq, Structural)]
pub struct UdpServer {
    pub sockets: usize,
    pub clean_sec: Option<u64>,
}

impl UdpServer {
    /// The plan for a machine with `cpus` processors: one socket for each
    /// where the platform lets sockets share a port, one socket where it
    /// does not; idle peers stay.
    pub fn new(cpus: usize, reuse_port: bool) -> (server: UdpServer)
        ensures
            server.clean_sec is None,
            server.sockets == if reuse_port {
                cpus
            } else {
                1
            },
    {
        UdpServer { sockets: listen_count(cpus, reuse_port), clean_sec: None }
    }

    /// Sets the seconds after which a peer that was not heard of is closed.
    pub fn set_peer_timeout_sec(self, sec: u64) -> (server: UdpServer)
        requires
            sec > 0,
        ensures
            server.clean_sec == Some(sec),
            server.sockets == self.sockets,
    {
        UdpServer { sockets: self.sockets, clean_sec: Some(sec) }
    }

    /// Whether idle peers are closed, and so whether the seconds at which
    /// peers are heard of are kept.
    pub fn need_check_timeout(&self) -> (need: bool)
        ensures
            need == self.clean_sec is Some,
    {
        self.clean_sec.is_some()
    }

    /// The contexts of the sockets, numbered from zero, each without peers.
    pub fn contexts(&self) -> (contexts: Vec<UdpContext>)
        ensures
            contexts@.len() == self.sockets,
            forall|i: int|
                0 <= i < self.sockets ==> (#[trigger] contexts@[i])@ == (ContextView {
                    id: i as nat,
                    peers: Seq::empty(),
                }),
    {
        let mut contexts: Vec<UdpContext> = Vec::new();
        let mut i: usize = 0;
        while i < self.sockets
            invariant
                i <= self.sockets,
                contexts@.len() == i,
                forall|k: int|
                    0 <= k < i ==> (#[trigger] contexts@[k])@ == (ContextView {
                        id: k as nat,
                        peers: Seq::empty(),
                    }),
            decreases self.sockets - i,
        {
            contexts.push(UdpContext::new(i));
            i = i + 1;
        }
        contexts
    }
}

} // verus!
