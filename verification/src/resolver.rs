use vstd::prelude::*;
use crate::buffer::{loaded, PacketBuffer};
use crate::error::DnsError;
use crate::header::DnsHeader;
use crate::packet::{parse_packet, ns_pairs, DnsPacket, PacketView};
use crate::query_type::QueryType;
use crate::question::{DnsQuestion, QuestionView};
use crate::result_code::ResultCode;

verus! {

/// The most queries that one lookup may send, those for the addresses of
/// name servers included.
pub const MAX_HOPS: usize = 16;

/// The port of the name servers that are asked.
pub const UPSTREAM_PORT: u16 = 53;

/// The seconds that one query waits for its reply.
pub const REPLY_TIMEOUT_SECS: u64 = 10;

/// One name that is being looked up, and the server that is asked next.
#[derive(Debug)]
pub struct Lookup {
    pub qname: String,
    pub qtype: QueryType,
    pub server: [u8; 4],
}

/// What a lookup holds, as plain values.
pub struct LookupView {
    pub qname: Seq<char>,
    pub qtype: QueryType,
    pub server: Seq<u8>,
}

impl View for Lookup {
    type V = LookupView;

    open spec fn view(&self) -> LookupView {
        LookupView { qname: self.qname@, qtype: self.qtype, server: self.server@ }
    }
}

/// What came of a query that was sent upstream.
#[derive(Debug)]
pub enum UpstreamEvent {
    /// A datagram came back.
    Datagram(Vec<u8>),
    /// Nothing came back in time.
    Timeout,
    /// Sending or receiving failed.
    IoError,
}

/// The walk down the delegation chain for one name, between two queries.
///
/// The lookups form a stack: the first is the one that was asked for; each
/// further one looks for the address of a name server that the one below it
/// was referred to without an address, and `waiting` holds the referral of
/// the one below.
#[derive(Debug)]
pub struct Resolver {
    root: [u8; 4],
    lookups: Vec<Lookup>,
    waiting: Vec<DnsPacket>,
    hops: usize,
}

/// What a resolver holds, as plain values.
pub struct ResolverView {
    pub root: Seq<u8>,
    pub lookups: Seq<LookupView>,
    pub waiting: Seq<PacketView>,
    pub hops: nat,
}

/// What a resolver asks for next.
#[derive(Debug)]
pub enum ResolverStep {
    /// The query for `qname` and `qtype` is to be sent to `server`, and what
    /// comes of it handed to `resolver.step`.
    Query { resolver: Resolver, server: [u8; 4], qname: String, qtype: QueryType },
    /// The lookup is over.
    Done(Result<DnsPacket, DnsError>),
}

/// What a step holds, as plain values.
pub enum ResolverStepView {
    Query { resolver: ResolverView, server: Seq<u8>, qname: Seq<char>, qtype: QueryType },
    Done(Result<PacketView, DnsError>),
}

/// The lookups of a list, as plain values.
pub open spec fn lookups_view(lookups: Seq<Lookup>) -> Seq<LookupView> {
    Seq::new(lookups.len(), |i: int| lookups[i]@)
}

/// The messages of a list, as plain values.
pub open spec fn packets_view(packets: Seq<DnsPacket>) -> Seq<PacketView> {
    Seq::new(packets.len(), |i: int| packets[i]@)
}

impl View for Resolver {
    type V = ResolverView;

    closed spec fn view(&self) -> ResolverView {
        ResolverView {
            root: self.root@,
            lookups: lookups_view(self.lookups@),
            waiting: packets_view(self.waiting@),
            hops: self.hops as nat,
        }
    }
}

impl View for ResolverStep {
    type V = ResolverStepView;

    open spec fn view(&self) -> ResolverStepView {
        match *self {
            ResolverStep::Query { resolver, server, qname, qtype } => ResolverStepView::Query {
                resolver: resolver@,
                server: server@,
                qname: qname@,
                qtype,
            },
            ResolverStep::Done(res) => ResolverStepView::Done(
                match res {
                    Ok(packet) => Ok(packet@),
                    Err(e) => Err(e),
                },
            ),
        }
    }
}

impl ResolverView {
    /// What holds of a resolver between two queries: there is a lookup,
    /// every lookup but the first has the referral of the one below it, and
    /// between one and sixteen queries were sent.
    pub open spec fn valid(self) -> bool {
        &&& self.lookups.len() >= 1
        &&& self.waiting.len() + 1 == self.lookups.len()
        &&& 1 <= self.hops <= 16
    }

    /// The resolver with another server for the lookup on top.
    pub open spec fn redirect(self, server: Seq<u8>) -> ResolverView {
        ResolverView {
            lookups: self.lookups.drop_last().push(
                LookupView { server, ..self.lookups.last() },
            ),
            ..self
        }
    }

    /// The query for the lookup on top, or `ResolverLoop` where sixteen
    /// queries were sent already.
    pub open spec fn ask(self) -> ResolverStepView {
        if self.hops >= 16 {
            ResolverStepView::Done(Err(DnsError::ResolverLoop))
        } else {
            ResolverStepView::Query {
                resolver: ResolverView { hops: self.hops + 1, ..self },
                server: self.lookups.last().server,
                qname: self.lookups.last().qname,
                qtype: self.lookups.last().qtype,
            }
        }
    }

    /// What follows when the lookup on top ends with `result`. The first
    /// lookup ends the whole with it. One for the address of a name server
    /// hands the first address among its answers to the lookup below, which
    /// goes on there; where it found no address, the lookup below ends with
    /// the referral that it had.
    pub open spec fn settle(self, result: PacketView) -> ResolverStepView
        decreases self.lookups.len(),
    {
        if self.lookups.len() <= 1 {
            ResolverStepView::Done(Ok(result))
        } else {
            let below = ResolverView {
                lookups: self.lookups.drop_last(),
                waiting: self.waiting.drop_last(),
                ..self
            };
            match result.first_a() {
                Some(addr) => below.redirect(addr).ask(),
                None => below.settle(self.waiting.last()),
            }
        }
    }

    /// What follows when `reply` answers the query of the lookup on top.
    /// A reply that says NXDOMAIN or holds an answer ends the lookup. A
    /// referral with the address of a name server sends the lookup there.
    /// A referral without one starts a lookup for the address of the first
    /// name server, from the root server on. Any other reply ends the lookup.
    pub open spec fn deliver(self, reply: PacketView) -> ResolverStepView {
        let top = self.lookups.last();
        if reply.header.rescode == ResultCode::NXDOMAIN || reply.answers.len() > 0 {
            self.settle(reply)
        } else {
            match reply.glue_for(top.qname) {
                Some(addr) => self.redirect(addr).ask(),
                None => match reply.host_for(top.qname) {
                    Some(host) => ResolverView {
                        lookups: self.lookups.push(
                            LookupView { qname: host, qtype: QueryType::A, server: self.root },
                        ),
                        waiting: self.waiting.push(reply),
                        ..self
                    }.ask(),
                    None => self.settle(reply),
                },
            }
        }
    }

    /// What follows an event: a datagram that is no message ends the whole
    /// with `BadPacket`, one that is a message is delivered; a timeout and a
    /// failure of the transport end the whole with their errors.
    pub open spec fn next(self, event: UpstreamEvent) -> ResolverStepView {
        match event {
            UpstreamEvent::Datagram(data) => match parse_packet(loaded(data@), 0) {
                Ok((reply, _)) => self.deliver(reply),
                Err(_) => ResolverStepView::Done(Err(DnsError::BadPacket)),
            },
            UpstreamEvent::Timeout => ResolverStepView::Done(Err(DnsError::UpstreamTimeout)),
            UpstreamEvent::IoError => ResolverStepView::Done(Err(DnsError::UpstreamIoError)),
        }
    }

    /// The resolver at the start of a lookup, after its first query.
    pub open spec fn started(root: Seq<u8>, qname: Seq<char>, qtype: QueryType) -> ResolverView {
        ResolverView {
            root,
            lookups: seq![LookupView { qname, qtype, server: root }],
            waiting: Seq::empty(),
            hops: 1,
        }
    }
}

/// Ending a lookup sends at most one more query, and none beyond the
/// sixteenth.
pub proof fn lemma_settle_counts(resolver: ResolverView, result: PacketView)
    requires
        resolver.valid(),
    ensures
        resolver.settle(result) matches ResolverStepView::Query { resolver: next, .. }
            ==> next.valid() && next.hops == resolver.hops + 1,
    decreases resolver.lookups.len(),
{
    if resolver.lookups.len() > 1 {
        let below = ResolverView {
            lookups: resolver.lookups.drop_last(),
            waiting: resolver.waiting.drop_last(),
            ..resolver
        };
        match result.first_a() {
            Some(addr) => {},
            None => {
                lemma_settle_counts(below, resolver.waiting.last());
            },
        }
    }
}

/// Every step of a lookup that asks for a query counts it, and no lookup
/// sends more than sixteen: a lookup ends after at most sixteen queries,
/// with a reply or with an error.
pub proof fn lemma_step_counts(resolver: ResolverView, event: UpstreamEvent)
    requires
        resolver.valid(),
    ensures
        resolver.next(event) matches ResolverStepView::Query { resolver: next, .. }
            ==> next.valid() && next.hops == resolver.hops + 1,
{
    match event {
        UpstreamEvent::Datagram(data) => {
            match parse_packet(loaded(data@), 0) {
                Ok((reply, _)) => {
                    lemma_settle_counts(resolver, reply);
                },
                Err(_) => {},
            }
        },
        _ => {},
    }
}

/// The query that is sent upstream: one question, no recursion desired.
pub fn build_query(id: u16, qname: &str, qtype: QueryType) -> (packet: DnsPacket)
    ensures
        packet@ == (PacketView {
            header: DnsHeader { id, ..DnsHeader::empty() },
            questions: seq![QuestionView { name: qname@, qtype }],
            answers: Seq::empty(),
            authorities: Seq::empty(),
            resources: Seq::empty(),
        }),
{
    let mut packet = DnsPacket::new();
    packet.header.id = id;
    let question = DnsQuestion::new(qname.to_owned(), qtype);
    packet.questions.push(question);
    assert(packet@.questions =~= seq![QuestionView { name: qname@, qtype }]);
    packet
}

impl Resolver {
    #[verifier::type_invariant]
    closed spec fn inv(self) -> bool {
        &&& self.lookups@.len() >= 1
        &&& self.waiting@.len() + 1 == self.lookups@.len()
        &&& 1 <= self.hops <= 16
    }

    /// The number of queries that the lookup has sent.
    pub closed spec fn hops(self) -> nat {
        self.hops as nat
    }

    /// The count of queries is that of the view.
    pub proof fn lemma_hops(self)
        ensures
            self.hops() == self@.hops,
    {
    }

    /// Starts the lookup of `qname` at the server `root`: the first query
    /// goes there.
    pub fn start(root: [u8; 4], qname: String, qtype: QueryType) -> (step: ResolverStep)
        ensures
            step@ == (ResolverStepView::Query {
                resolver: ResolverView::started(root@, qname@, qtype),
                server: root@,
                qname: qname@,
                qtype,
            }),
    {
        let mut lookups: Vec<Lookup> = Vec::new();
        lookups.push(Lookup { qname: qname.clone(), qtype, server: root });
        let resolver = Resolver { root, lookups, waiting: Vec::new(), hops: 1 };
        assert(resolver@.lookups =~= seq![LookupView { qname: qname@, qtype, server: root@ }]);
        assert(resolver@.waiting =~= Seq::empty());
        ResolverStep::Query { resolver, server: root, qname, qtype }
    }

    /// Takes what came of the last query and says what is next: another
    /// query, or the end of the lookup. Every query counts, and the
    /// seventeenth is not sent: the lookup ends with `ResolverLoop`.
    pub fn step(self, event: UpstreamEvent) -> (step: ResolverStep)
        ensures
            step@ == self@.next(event),
            step matches ResolverStep::Query { resolver, .. } ==> resolver.hops() == self.hops()
                + 1 && resolver.hops() <= 16 && resolver@.valid(),
    {
        proof {
            use_type_invariant(&self);
        }
        let reply = match event {
            UpstreamEvent::Timeout => {
                return ResolverStep::Done(Err(DnsError::UpstreamTimeout));
            },
            UpstreamEvent::IoError => {
                return ResolverStep::Done(Err(DnsError::UpstreamIoError));
            },
            UpstreamEvent::Datagram(data) => {
                let mut buffer = PacketBuffer::load(data.as_slice());
                match DnsPacket::from_buffer(&mut buffer) {
                    Ok(reply) => reply,
                    Err(_) => {
                        return ResolverStep::Done(Err(DnsError::BadPacket));
                    },
                }
            },
        };
        let ghost before = self@;
        let Resolver { root, lookups, waiting, hops } = self;
        let mut lookups = lookups;
        let mut waiting = waiting;
        let n: usize = lookups.len();
        assert(before.lookups.last() == lookups@[n - 1]@);
        let settled = match reply.header.rescode {
            ResultCode::NXDOMAIN => true,
            _ => reply.answers.len() > 0,
        };
        if !settled {
            match reply.get_resolved_ns(lookups[n - 1].qname.as_str()) {
                Some(addr) => {
                    return redirect_and_ask(root, lookups, waiting, hops, addr);
                },
                None => {
                    match reply.get_unresolved_ns(lookups[n - 1].qname.as_str()) {
                        Some(host) => {
                            let ghost l0 = lookups_view(lookups@);
                            let ghost w0 = packets_view(waiting@);
                            let lookup = Lookup { qname: host, qtype: QueryType::A, server: root };
                            lookups.push(lookup);
                            waiting.push(reply);
                            assert(lookups_view(lookups@) =~= l0.push(lookup@));
                            assert(packets_view(waiting@) =~= w0.push(reply@));
                            return ask(root, lookups, waiting, hops);
                        },
                        None => {},
                    }
                },
            }
        }
        settle(root, lookups, waiting, hops, reply)
    }
}

fn ask(root: [u8; 4], lookups: Vec<Lookup>, waiting: Vec<DnsPacket>, hops: usize) -> (step:
    ResolverStep)
    requires
        lookups@.len() >= 1,
        waiting@.len() + 1 == lookups@.len(),
        1 <= hops <= 16,
    ensures
        step@ == (ResolverView {
            root: root@,
            lookups: lookups_view(lookups@),
            waiting: packets_view(waiting@),
            hops: hops as nat,
        }).ask(),
        step matches ResolverStep::Query { resolver, .. } ==> resolver.hops() == hops + 1
            && resolver.hops() <= 16 && resolver@.valid(),
{
    if hops >= MAX_HOPS {
        return ResolverStep::Done(Err(DnsError::ResolverLoop));
    }
    let n: usize = lookups.len();
    let server = lookups[n - 1].server;
    let qname = lookups[n - 1].qname.clone();
    let qtype = lookups[n - 1].qtype;
    assert(lookups_view(lookups@).last() == lookups@[n - 1]@);
    let resolver = Resolver { root, lookups, waiting, hops: hops + 1 };
    ResolverStep::Query { resolver, server, qname, qtype }
}

fn redirect_and_ask(
    root: [u8; 4],
    lookups: Vec<Lookup>,
    waiting: Vec<DnsPacket>,
    hops: usize,
    server: [u8; 4],
) -> (step: ResolverStep)
    requires
        lookups@.len() >= 1,
        waiting@.len() + 1 == lookups@.len(),
        1 <= hops <= 16,
    ensures
        step@ == (ResolverView {
            root: root@,
            lookups: lookups_view(lookups@),
            waiting: packets_view(waiting@),
            hops: hops as nat,
        }).redirect(server@).ask(),
        step matches ResolverStep::Query { resolver, .. } ==> resolver.hops() == hops + 1
            && resolver.hops() <= 16 && resolver@.valid(),
{
    let mut lookups = lookups;
    let ghost l0 = lookups_view(lookups@);
    match lookups.pop() {
        Some(top) => {
            let moved = Lookup { qname: top.qname, qtype: top.qtype, server };
            lookups.push(moved);
            assert(lookups_view(lookups@) =~= l0.drop_last().push(
                LookupView { server: server@, ..l0.last() },
            ));
        },
        None => {},
    }
    ask(root, lookups, waiting, hops)
}

fn settle(
    root: [u8; 4],
    lookups: Vec<Lookup>,
    waiting: Vec<DnsPacket>,
    hops: usize,
    result: DnsPacket,
) -> (step: ResolverStep)
    requires
        lookups@.len() >= 1,
        waiting@.len() + 1 == lookups@.len(),
        1 <= hops <= 16,
    ensures
        step@ == (ResolverView {
            root: root@,
            lookups: lookups_view(lookups@),
            waiting: packets_view(waiting@),
            hops: hops as nat,
        }).settle(result@),
        step matches ResolverStep::Query { resolver, .. } ==> resolver.hops() == hops + 1
            && resolver.hops() <= 16 && resolver@.valid(),
    decreases lookups@.len(),
{
    if lookups.len() <= 1 {
        return ResolverStep::Done(Ok(result));
    }
    let mut lookups = lookups;
    let mut waiting = waiting;
    let ghost l0 = lookups_view(lookups@);
    let ghost w0 = packets_view(waiting@);
    let _ = lookups.pop();
    let parent = waiting.pop();
    assert(lookups_view(lookups@) =~= l0.drop_last());
    assert(packets_view(waiting@) =~= w0.drop_last());
    match result.random_a() {
        Some(addr) => redirect_and_ask(root, lookups, waiting, hops, addr),
        None => match parent {
            Some(referral) => {
                assert(referral@ == w0.last());
                settle(root, lookups, waiting, hops, referral)
            },
            None => ResolverStep::Done(Ok(result)),
        },
    }
}

} // verus!
